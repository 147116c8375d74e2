//! NEXRAD Level 2 (Archive II / AR2V) backend.

pub mod adapter;
pub mod attrs;
pub mod decode;
pub mod demux;
pub mod grid;
pub mod mapping;
pub mod sniff;

use crate::backends::common::sniff::FileProbe;
use crate::backends::nexrad::adapter::{
    azimuths, build_volume_metadata, conversion_is_decided_by_the_radials, convert_scan, convert_sweep,
    cut_at_index, every_ray_is_one_radial, is_scan_error, is_sweep_data, is_sweep_error, is_volume_data, is_volume_metadata,
    metadata_follows_the_cuts_of_the_same_index, metadata_is_decided_by_the_scan, present_products,
    rays_are_the_radials, same_metadata, same_rays, same_sweep_metadata, scan_converts,
    sweep_converts, sweep_metadata_is_decided_by_radials_and_cut,
    sweep_metadata_is_that_of_its_cut, sweeps_follow_the_cuts_of_the_same_index,
    volume_attributes_are_those_of_pattern_and_status, volumes_lie_where_their_sites_do,
};
use crate::backends::nexrad::attrs::{
    channel_label, cut_attrs, cut_flags_are_bits, waveform_label,
};
use crate::backends::nexrad::decode::error::{error_text, NexradDecodeError};
use crate::backends::nexrad::decode::messages::msg31::header::pointers_at;
use crate::backends::nexrad::decode::messages::msg31::{is_block_of_kind, msg31_outcome};
use crate::backends::nexrad::decode::messages::msg2::status_fields_stand_at_their_halfwords;
use crate::backends::nexrad::decode::messages::msg5::{
    cuts_are_read_one_behind_the_other, patterns_have_their_fields_in_front, pulse_width_label,
    Msg5,
};
use crate::backends::nexrad::decode::model::{group_sweeps, radials_wf, sweep_models, Scan};
use crate::backends::nexrad::decode::{
    decode_volume, file_parts, has_coverage, is_parts_error, parts_decode, parts_make_up_one_volume,
    site_of_msg31, sites_are_read_from_the_volume_block,
};
use crate::backends::nexrad::sniff::{
    is_nexrad_file, is_nexrad_head, looks_like_ar2v_bytes, looks_like_nexrad,
};
use crate::backends::{texts, RadarBackend};
use crate::errors::RadishError;
use crate::text::utf8_lossy;
use crate::types::{
    Quantity, RowScaling, SweepAttrsModel, SweepData, VolumeData, VolumeMetadata,
};
use crate::wire::{be16, be16s, be32};
use vstd::prelude::*;

verus! {

/// The bytes are a file that decodes to a volume.
pub open spec fn volume_decodes(d: Seq<u8>) -> bool {
    parts_decode(d) && has_coverage(file_parts(d))
}

/// `e` reports why a file does not decode to a volume.
pub open spec fn is_decode_failure(e: RadishError, d: Seq<u8>) -> bool {
    exists|x: NexradDecodeError|
        #[trigger] is_volume_error(x, d) && (e matches RadishError::Decode(text) && text@
            == error_text(x))
}

/// `x` is a reason why a file does not decode to a volume.
pub open spec fn is_volume_error(x: NexradDecodeError, d: Seq<u8>) -> bool {
    if parts_decode(d) {
        !has_coverage(file_parts(d)) && x == NexradDecodeError::MissingCoveragePattern
    } else {
        is_parts_error(x, d)
    }
}

/// `scan` is the volume of a file.
pub open spec fn is_scan_of(scan: Scan, d: Seq<u8>) -> bool {
    volume_decodes(d) && scan.is_of(file_parts(d))
}

/// Decode an in-memory file.
pub fn decode_bytes(data: &[u8]) -> (r: Result<Scan, RadishError>)
    ensures
        match r {
            Ok(scan) => is_scan_of(scan, data@),
            Err(e) => !volume_decodes(data@) && is_decode_failure(e, data@),
        },
{
    match decode_volume(data) {
        Ok(scan) => Ok(scan),
        Err(x) => {
            assert(is_volume_error(x, data@));
            Err(RadishError::Decode(x.message()))
        },
    }
}

/// Run the decoder and drop the result.
pub fn time_decode_volume(bytes: &[u8]) -> (r: Result<(), RadishError>)
    ensures
        match r {
            Ok(_) => volume_decodes(bytes@),
            Err(e) => !volume_decodes(bytes@) && is_decode_failure(e, bytes@),
        },
{
    match decode_bytes(bytes) {
        Ok(_) => Ok(()),
        Err(e) => Err(e),
    }
}

/// Run the decoder phase by phase and drop the result.
pub fn bench_decode_phases(bytes: &[u8]) -> (r: Result<(), RadishError>)
    ensures
        match r {
            Ok(_) => volume_decodes(bytes@),
            Err(e) => !volume_decodes(bytes@) && is_decode_failure(e, bytes@),
        },
{
    let per_record = match decode::decode_records(bytes) {
        Ok(p) => p,
        Err(x) => {
            assert(is_volume_error(x, bytes@));
            return Err(RadishError::Decode(x.message()));
        },
    };
    let parts = decode::stitch_records(per_record);
    assert(parts.is_of(file_parts(bytes@)));
    match decode::assemble_scan(parts) {
        Ok(_) => Ok(()),
        Err(x) => {
            assert(is_volume_error(x, bytes@));
            Err(RadishError::Decode(x.message()))
        },
    }
}

/// The chunks one behind the other.
pub open spec fn joined_chunks(chunks: Seq<Vec<u8>>) -> Seq<u8>
    decreases chunks.len(),
{
    if chunks.len() == 0 {
        Seq::empty()
    } else {
        joined_chunks(chunks.drop_last()) + chunks.last()@
    }
}

/// Put chunks one behind the other, byte for byte.
pub fn concat_chunks(chunks: Vec<Vec<u8>>) -> (out: Vec<u8>)
    ensures
        out@ == joined_chunks(chunks@),
{
    let mut out: Vec<u8> = Vec::new();
    let mut i: usize = 0;
    assert(chunks@.take(0) =~= Seq::empty());
    while i < chunks.len()
        invariant
            i <= chunks@.len(),
            out@ == joined_chunks(chunks@.take(i as int)),
        decreases chunks@.len() - i,
    {
        let ghost before = out@;
        out.extend_from_slice(chunks[i].as_slice());
        proof {
            assert(out@ =~= before + chunks@[i as int]@);
            assert(chunks@.take(i + 1).drop_last() =~= chunks@.take(i as int));
            assert(chunks@.take(i + 1).last() == chunks@[i as int]);
        }
        i += 1;
    }
    assert(chunks@.take(chunks@.len() as int) =~= chunks@);
    out
}

/// `r` is a result of reading the volume in a file named `source`.
pub open spec fn is_volume_read(
    r: Result<VolumeData, RadishError>,
    d: Seq<u8>,
    source: Seq<char>,
) -> bool {
    match r {
        Ok(v) => exists|scan: Scan|
            #[trigger] is_scan_of(scan, d) && scan_converts(scan) && is_volume_data(
                v,
                scan,
                source,
            ),
        Err(e) => {
            ||| !volume_decodes(d) && is_decode_failure(e, d)
            ||| exists|scan: Scan|
                #[trigger] is_scan_of(scan, d) && !scan_converts(scan) && is_scan_error(e, scan)
        },
    }
}

/// `r` is a result of reading the metadata of the volume in a file named
/// `source`.
pub open spec fn is_metadata_read(
    r: Result<VolumeMetadata, RadishError>,
    d: Seq<u8>,
    source: Seq<char>,
) -> bool {
    match r {
        Ok(m) => exists|scan: Scan|
            #[trigger] is_scan_of(scan, d) && is_volume_metadata(m, scan, source),
        Err(e) => !volume_decodes(d) && is_decode_failure(e, d),
    }
}

/// `r` is a result of reading sweep `idx` of the volume in a file.
pub open spec fn is_sweep_read(r: Result<SweepData, RadishError>, d: Seq<u8>, idx: int) -> bool {
    match r {
        Ok(s) => exists|scan: Scan|
            #[trigger] is_scan_of(scan, d) && idx < scan.sweeps@.len() && sweep_converts(
                scan.sweeps@[idx],
            ) && is_sweep_data(
                s,
                scan.sweeps@[idx],
                cut_at_index(scan.coverage_pattern.elevation_cuts@, idx),
            ),
        Err(e) => {
            ||| !volume_decodes(d) && is_decode_failure(e, d)
            ||| exists|scan: Scan| #[trigger]
                is_scan_of(scan, d) && idx >= scan.sweeps@.len() && e
                    == RadishError::InvalidSweepIndex(idx as usize)
            ||| exists|scan: Scan| #[trigger]
                is_scan_of(scan, d) && idx < scan.sweeps@.len() && !sweep_converts(
                    scan.sweeps@[idx],
                ) && is_sweep_error(e, scan.sweeps@[idx], idx)
        },
    }
}

/// The chunks are a file cut at `cuts`.
pub open spec fn are_cuts_of(chunks: Seq<Vec<u8>>, d: Seq<u8>, cuts: Seq<int>) -> bool {
    &&& cuts.len() == chunks.len() + 1
    &&& cuts[0] == 0
    &&& cuts.last() == d.len()
    &&& forall|i: int|
        0 <= i < chunks.len() ==> {
            &&& 0 <= cuts[i] <= cuts[i + 1] <= d.len()
            &&& (#[trigger] chunks[i])@ == d.subrange(cuts[i], cuts[i + 1])
        }
}

proof fn lemma_joined_prefix(chunks: Seq<Vec<u8>>, d: Seq<u8>, cuts: Seq<int>, n: int)
    requires
        are_cuts_of(chunks, d, cuts),
        0 <= n <= chunks.len(),
    ensures
        0 <= cuts[n] <= d.len(),
        joined_chunks(chunks.take(n)) == d.take(cuts[n]),
    decreases n,
{
    if n == 0 {
        assert(chunks.take(0) =~= Seq::empty());
        assert(joined_chunks(chunks.take(0)) =~= d.take(0));
    } else {
        lemma_joined_prefix(chunks, d, cuts, n - 1);
        assert(chunks.take(n).drop_last() =~= chunks.take(n - 1));
        assert(chunks.take(n).last() == chunks[n - 1]);
        assert(chunks[n - 1]@ == d.subrange(cuts[n - 1], cuts[n]));
        assert(d.take(cuts[n - 1]) + d.subrange(cuts[n - 1], cuts[n]) =~= d.take(cuts[n]));
    }
}

/// Where a file is cut into chunks does not matter: the chunks join to the
/// file, so reading or scanning them has the results that the file has.
pub proof fn chunk_boundaries_do_not_matter(
    chunks: Seq<Vec<u8>>,
    d: Seq<u8>,
    cuts: Seq<int>,
    read: Result<VolumeData, RadishError>,
    scanned: Result<VolumeMetadata, RadishError>,
    source: Seq<char>,
)
    requires
        are_cuts_of(chunks, d, cuts),
    ensures
        joined_chunks(chunks) == d,
        is_volume_read(read, joined_chunks(chunks), source) <==> is_volume_read(read, d, source),
        is_metadata_read(scanned, joined_chunks(chunks), source) <==> is_metadata_read(
            scanned,
            d,
            source,
        ),
{
    lemma_joined_prefix(chunks, d, cuts, chunks.len() as int);
    assert(chunks.take(chunks.len() as int) =~= chunks);
    assert(d.take(d.len() as int) =~= d);
}

/// Scanning gives the metadata that reading gives.
pub proof fn scanning_gives_the_metadata_of_reading(v: VolumeData, d: Seq<u8>, source: Seq<char>)
    requires
        is_volume_read(Ok(v), d, source),
    ensures
        is_metadata_read(Ok(v.metadata), d, source),
{
}

/// Reading one sweep gives the sweep of that index that reading all of them
/// gives.
pub proof fn one_sweep_is_read_as_in_the_volume(
    v: VolumeData,
    d: Seq<u8>,
    source: Seq<char>,
    idx: int,
)
    requires
        is_volume_read(Ok(v), d, source),
        0 <= idx < v.sweeps@.len(),
    ensures
        is_sweep_read(Ok(v.sweeps@[idx]), d, idx),
{
    let scan = choose|scan: Scan|
        #[trigger] is_scan_of(scan, d) && scan_converts(scan) && is_volume_data(v, scan, source);
    assert(is_sweep_data(
        v.sweeps@[idx],
        scan.sweeps@[idx],
        cut_at_index(scan.coverage_pattern.elevation_cuts@, idx),
    ));
    assert(sweep_converts(scan.sweeps@[idx]));
}

proof fn lemma_same_radials(a: Scan, b: Scan, d: Seq<u8>)
    requires
        is_scan_of(a, d),
        is_scan_of(b, d),
    ensures
        a.sweeps@.len() == b.sweeps@.len(),
        forall|i: int|
            0 <= i < a.sweeps@.len() ==> (#[trigger] a.sweeps@[i]).model()
                == b.sweeps@[i].model(),
{
    let (x, y) = (sweep_models(a.sweeps@), sweep_models(b.sweeps@));
    assert(x == y);
    assert forall|i: int| 0 <= i < a.sweeps@.len() implies (#[trigger] a.sweeps@[i]).model()
        == b.sweeps@[i].model() by {
        assert(x[i] == y[i]);
    }
}

/// Whether a volume can be read is decided by its bytes, whatever the file is
/// called.
pub proof fn success_is_decided_by_the_bytes(
    a: Result<VolumeData, RadishError>,
    b: Result<VolumeData, RadishError>,
    d: Seq<u8>,
    source_a: Seq<char>,
    source_b: Seq<char>,
)
    requires
        is_volume_read(a, d, source_a),
        is_volume_read(b, d, source_b),
    ensures
        a is Ok <==> b is Ok,
{
    lemma_read_converts(a, d, source_a);
    lemma_read_converts(b, d, source_b);
}

proof fn lemma_read_converts(r: Result<VolumeData, RadishError>, d: Seq<u8>, source: Seq<char>)
    requires
        is_volume_read(r, d, source),
    ensures
        r is Ok <==> volume_decodes(d) && forall|scan: Scan| #[trigger]
            is_scan_of(scan, d) ==> scan_converts(scan),
{
    match r {
        Ok(v) => {
            let x = choose|scan: Scan|
                #[trigger] is_scan_of(scan, d) && scan_converts(scan) && is_volume_data(
                    v,
                    scan,
                    source,
                );
            assert forall|y: Scan| #[trigger] is_scan_of(y, d) implies scan_converts(y) by {
                lemma_same_radials(x, y, d);
                assert forall|i: int| 0 <= i < y.sweeps@.len() implies sweep_converts(
                    #[trigger] y.sweeps@[i],
                ) by {
                    assert(sweep_converts(x.sweeps@[i]));
                }
            }
        },
        Err(e) => {},
    }
}

/// Two volumes have the same metadata, but for the instrument's name, and the
/// same sweeps.
pub open spec fn same_volume(a: VolumeData, b: VolumeData) -> bool {
    &&& same_metadata(a.metadata, b.metadata)
    &&& a.sweeps@.len() == b.sweeps@.len()
    &&& forall|i: int|
        0 <= i < a.sweeps@.len() ==> same_rays(#[trigger] a.sweeps@[i], b.sweeps@[i])
            && same_sweep_metadata(a.sweeps@[i].metadata, b.sweeps@[i].metadata)
}

/// The same bytes have the same metadata, whatever the file is called; from
/// files of the same name the instrument's name is the same too.
pub proof fn the_same_bytes_have_the_same_metadata(
    a: VolumeMetadata,
    b: VolumeMetadata,
    d: Seq<u8>,
    source_a: Seq<char>,
    source_b: Seq<char>,
)
    requires
        is_metadata_read(Ok(a), d, source_a),
        is_metadata_read(Ok(b), d, source_b),
    ensures
        same_metadata(a, b),
        source_a == source_b || file_parts(d).site is Some ==> a.instrument_name@
            == b.instrument_name@,
{
    let x = choose|scan: Scan|
        #[trigger] is_scan_of(scan, d) && is_volume_metadata(a, scan, source_a);
    let y = choose|scan: Scan|
        #[trigger] is_scan_of(scan, d) && is_volume_metadata(b, scan, source_b);
    parts_make_up_one_volume(x, y, file_parts(d));
    metadata_is_decided_by_the_scan(a, b, x, y, source_a, source_b);
}

/// The same bytes have the same volume: the same metadata and the same sweeps,
/// with the same rays and the same cells, whatever the file is called and
/// however the work was shared out.
pub proof fn the_same_bytes_have_the_same_sweeps(
    a: VolumeData,
    b: VolumeData,
    d: Seq<u8>,
    source_a: Seq<char>,
    source_b: Seq<char>,
)
    requires
        is_volume_read(Ok(a), d, source_a),
        is_volume_read(Ok(b), d, source_b),
    ensures
        same_volume(a, b),
{
    let x = choose|scan: Scan|
        #[trigger] is_scan_of(scan, d) && scan_converts(scan) && is_volume_data(a, scan, source_a);
    let y = choose|scan: Scan|
        #[trigger] is_scan_of(scan, d) && scan_converts(scan) && is_volume_data(b, scan, source_b);
    lemma_same_radials(x, y, d);
    parts_make_up_one_volume(x, y, file_parts(d));
    metadata_is_decided_by_the_scan(a.metadata, b.metadata, x, y, source_a, source_b);
    let cuts = x.coverage_pattern.elevation_cuts@;
    assert forall|i: int| 0 <= i < a.sweeps@.len() implies same_rays(
        #[trigger] a.sweeps@[i],
        b.sweeps@[i],
    ) && same_sweep_metadata(a.sweeps@[i].metadata, b.sweeps@[i].metadata) by {
        let cut = cut_at_index(cuts, i);
        assert(x.sweeps@[i].model() == y.sweeps@[i].model());
        assert(is_sweep_data(a.sweeps@[i], x.sweeps@[i], cut));
        assert(is_sweep_data(b.sweeps@[i], y.sweeps@[i], cut));
        conversion_is_decided_by_the_radials(
            a.sweeps@[i],
            b.sweeps@[i],
            x.sweeps@[i],
            y.sweeps@[i],
            cut,
            cut,
        );
        sweep_metadata_is_decided_by_radials_and_cut(
            a.sweeps@[i],
            b.sweeps@[i],
            x.sweeps@[i],
            y.sweeps@[i],
            cut,
        );
    }
}

/// Scanning a file and reading it give the same metadata.
pub proof fn scanning_and_reading_agree(
    v: VolumeData,
    m: VolumeMetadata,
    d: Seq<u8>,
    source_v: Seq<char>,
    source_m: Seq<char>,
)
    requires
        is_volume_read(Ok(v), d, source_v),
        is_metadata_read(Ok(m), d, source_m),
    ensures
        same_metadata(v.metadata, m),
        source_v == source_m ==> v.metadata.instrument_name@ == m.instrument_name@,
{
    scanning_gives_the_metadata_of_reading(v, d, source_v);
    the_same_bytes_have_the_same_metadata(v.metadata, m, d, source_v, source_m);
}

/// However a file is cut into chunks, its volume and its metadata are those of
/// the whole file.
pub proof fn chunks_have_the_volume_of_the_file(
    chunks: Seq<Vec<u8>>,
    cuts: Seq<int>,
    d: Seq<u8>,
    from_chunks: VolumeData,
    from_file: VolumeData,
    scanned: VolumeMetadata,
    source_chunks: Seq<char>,
    source_file: Seq<char>,
)
    requires
        are_cuts_of(chunks, d, cuts),
        is_volume_read(Ok(from_chunks), joined_chunks(chunks), source_chunks),
        is_metadata_read(Ok(scanned), joined_chunks(chunks), source_chunks),
        is_volume_read(Ok(from_file), d, source_file),
    ensures
        same_volume(from_chunks, from_file),
        same_metadata(scanned, from_file.metadata),
{
    chunk_boundaries_do_not_matter(
        chunks,
        d,
        cuts,
        Ok(from_chunks),
        Ok(scanned),
        source_chunks,
    );
    the_same_bytes_have_the_same_sweeps(from_chunks, from_file, d, source_chunks, source_file);
    scanning_gives_the_metadata_of_reading(from_file, d, source_file);
    the_same_bytes_have_the_same_metadata(
        scanned,
        from_file.metadata,
        d,
        source_chunks,
        source_file,
    );
}

/// Backend for NEXRAD Level 2 Archive II files (AR2V).
pub struct NexradBackend;

impl NexradBackend {
    /// Create a new backend instance.
    pub fn new() -> (b: Self)
        ensures
            b == NexradBackend,
    {
        NexradBackend
    }

    /// Decode the volume in a file's bytes. `source_name` is the file's name.
    pub fn read_volume_from(&self, data: &[u8], source_name: &str) -> (r: Result<
        VolumeData,
        RadishError,
    >)
        ensures
            is_volume_read(r, data@, source_name@),
    {
        let scan = decode_bytes(data)?;
        assert(is_scan_of(scan, data@));
        convert_scan(&scan, source_name)
    }

    /// Scan the metadata in a file's bytes. `source_name` is the file's name.
    pub fn scan_from(&self, data: &[u8], source_name: &str) -> (r: Result<
        VolumeMetadata,
        RadishError,
    >)
        ensures
            is_metadata_read(r, data@, source_name@),
    {
        let scan = decode_bytes(data)?;
        assert(is_scan_of(scan, data@));
        Ok(build_volume_metadata(&scan, source_name))
    }

    /// Read one sweep from a file's bytes.
    pub fn read_sweep_from(&self, data: &[u8], sweep_idx: usize) -> (r: Result<
        SweepData,
        RadishError,
    >)
        ensures
            is_sweep_read(r, data@, sweep_idx as int),
    {
        let scan = decode_bytes(data)?;
        assert(is_scan_of(scan, data@));
        if sweep_idx >= scan.sweeps.len() {
            return Err(RadishError::InvalidSweepIndex(sweep_idx));
        }
        let cuts = scan.coverage_pattern.elevation_cuts();
        let cut = if sweep_idx < cuts.len() {
            Some(&cuts[sweep_idx])
        } else {
            None
        };
        proof {
            let models = sweep_models(scan.sweeps@);
            assert(models[sweep_idx as int] == scan.sweeps@[sweep_idx as int].model());
            assert(radials_wf(models[sweep_idx as int].radials));
        }
        convert_sweep(&scan.sweeps[sweep_idx], sweep_idx, cut)
    }

    /// Decode a volume from chunks in scan order, which joined are a file.
    pub fn read_chunks_volume(&self, chunks: Vec<Vec<u8>>) -> (r: Result<VolumeData, RadishError>)
        ensures
            is_volume_read(r, joined_chunks(chunks@), "<chunks>"@),
    {
        let combined = concat_chunks(chunks);
        self.read_volume_from(combined.as_slice(), "<chunks>")
    }

    /// Scan a volume in memory for its metadata.
    pub fn scan_bytes_volume(&self, data: Vec<u8>) -> (r: Result<VolumeMetadata, RadishError>)
        ensures
            is_metadata_read(r, data@, "<bytes>"@),
    {
        self.scan_from(data.as_slice(), "<bytes>")
    }

    /// Scan a volume in chunks for its metadata.
    pub fn scan_chunks_volume(&self, chunks: Vec<Vec<u8>>) -> (r: Result<
        VolumeMetadata,
        RadishError,
    >)
        ensures
            is_metadata_read(r, joined_chunks(chunks@), "<chunks>"@),
    {
        let combined = concat_chunks(chunks);
        self.scan_from(combined.as_slice(), "<chunks>")
    }
}

impl Default for NexradBackend {
    fn default() -> (b: Self)
        ensures
            b == NexradBackend,
    {
        Self::new()
    }
}

impl RadarBackend for NexradBackend {
    open spec fn label(&self) -> Seq<char> {
        "nexrad_level2"@
    }

    open spec fn summary(&self) -> Seq<char> {
        "NOAA NEXRAD Level II (Archive II / AR2V)"@
    }

    open spec fn extension_list(&self) -> Seq<Seq<char>> {
        seq!["ar2"@, "ar2v"@]
    }

    open spec fn knows_file(&self, file: FileProbe) -> bool {
        is_nexrad_file(file)
    }

    open spec fn knows_head(&self, head: Seq<u8>) -> bool {
        is_nexrad_head(head)
    }

    open spec fn reads_bytes(&self, data: Seq<u8>, r: Result<VolumeData, RadishError>) -> bool {
        is_volume_read(r, data, "<bytes>"@)
    }

    fn name(&self) -> (s: &'static str) {
        "nexrad_level2"
    }

    fn description(&self) -> (s: &'static str) {
        "NOAA NEXRAD Level II (Archive II / AR2V)"
    }

    fn supported_extensions(&self) -> (v: Vec<&'static str>) {
        let mut v: Vec<&'static str> = Vec::new();
        v.push("ar2");
        v.push("ar2v");
        assert(texts(v@) =~= self.extension_list());
        v
    }

    /// Files often have no extension, so the magic bytes and the canonical
    /// naming count as well.
    fn can_read(&self, file: &FileProbe) -> (b: bool) {
        looks_like_nexrad(file)
    }

    fn can_read_bytes(&self, head: &[u8]) -> (b: bool) {
        looks_like_ar2v_bytes(head)
    }

    /// The buffer must not be gzip-compressed.
    fn read_bytes_volume(&self, data: Vec<u8>) -> (r: Result<VolumeData, RadishError>) {
        self.read_volume_from(data.as_slice(), "<bytes>")
    }
}

/// `q` is the commanded elevation of cut `i` of the coverage pattern message
/// `body`: `22 + 46 * i` bytes in, as a fraction of a turn with the lowest three
/// of its 16 bits left out, in units of 1/8192 degree.
pub open spec fn is_commanded_elevation(q: Quantity, body: Seq<u8>, i: int) -> bool {
    let raw = be16(body, 22 + 46 * i);
    q matches Quantity::Of8192ths(a) && a * 65536 == (raw - raw % 8) * 360 * 8192
}

/// `a` are the attributes of cut `i` of the coverage pattern message `body`, by
/// the bits of the cut's bytes.
pub open spec fn are_attributes_of_cut(a: SweepAttrsModel, body: Seq<u8>, i: int) -> bool {
    let p = 22 + 46 * i;
    let s = be16(body, p + 28) as int;
    &&& a.channel_config == channel_label(body[p + 2])
    &&& a.waveform_type == waveform_label(body[p + 3])
    &&& a.super_resolution == body[p + 4] % 16
    &&& a.sails_cut == (s % 2 == 1)
    &&& a.sails_sequence_number == (s / 2) % 8
    &&& a.mrle_cut == ((s / 16) % 2 == 1)
    &&& a.mrle_sequence_number == (s / 32) % 8
    &&& a.mpda_cut == ((s / 512) % 2 == 1)
    &&& a.base_tilt_cut == ((s / 1024) % 2 == 1)
}

proof fn lemma_cut_of_pattern(m: Msg5, body: Seq<u8>, i: int)
    requires
        m.is_at(body, 0),
        0 <= i < be16(body, 6),
    ensures
        m.elevation_cuts@.len() == be16(body, 6),
        m.elevation_cuts@[i].elevation_angle_raw == be16(body, 22 + 46 * i),
        are_attributes_of_cut(cut_attrs(m.elevation_cuts@[i]), body, i),
{
    cuts_are_read_one_behind_the_other(m, body, i);
    cut_flags_are_bits(m.elevation_cuts@[i]);
}

/// Sweep `i` of a file has the commanded elevation and the attributes of cut `i`
/// of the file's coverage pattern, in the volume's metadata and in its own.
#[verifier::rlimit(50)]
pub proof fn sweeps_of_a_file_follow_its_cuts(
    v: VolumeData,
    d: Seq<u8>,
    source: Seq<char>,
    i: int,
)
    requires
        is_volume_read(Ok(v), d, source),
        file_parts(d).msg5 is Some,
        0 <= i < v.sweeps@.len(),
        i < be16(file_parts(d).msg5->0, 6),
    ensures
        ({
            let body = file_parts(d).msg5->0;
            &&& is_commanded_elevation(v.metadata.sweep_fixed_angles@[i], body, i)
            &&& is_commanded_elevation(v.sweeps@[i].metadata.fixed_angle, body, i)
            &&& v.metadata.nexrad is Some
            &&& are_attributes_of_cut(v.metadata.nexrad->0.sweep_attrs@[i].model(), body, i)
            &&& v.sweeps@[i].metadata.nexrad is Some
            &&& are_attributes_of_cut(v.sweeps@[i].metadata.nexrad->0.model(), body, i)
        }),
{
    let body = file_parts(d).msg5->0;
    let scan = choose|scan: Scan|
        #[trigger] is_scan_of(scan, d) && scan_converts(scan) && is_volume_data(v, scan, source);
    lemma_cut_of_pattern(scan.coverage_pattern, body, i);
    sweeps_follow_the_cuts_of_the_same_index(v, scan, source, i);
}

/// The metadata of a file gives sweep `i` the commanded elevation and the
/// attributes of cut `i` of the file's coverage pattern.
#[verifier::rlimit(50)]
pub proof fn metadata_of_a_file_follows_its_cuts(
    m: VolumeMetadata,
    d: Seq<u8>,
    source: Seq<char>,
    i: int,
)
    requires
        is_metadata_read(Ok(m), d, source),
        file_parts(d).msg5 is Some,
        0 <= i < m.sweep_fixed_angles@.len(),
        i < be16(file_parts(d).msg5->0, 6),
    ensures
        ({
            let body = file_parts(d).msg5->0;
            &&& is_commanded_elevation(m.sweep_fixed_angles@[i], body, i)
            &&& m.nexrad is Some
            &&& are_attributes_of_cut(m.nexrad->0.sweep_attrs@[i].model(), body, i)
        }),
{
    let body = file_parts(d).msg5->0;
    let scan = choose|scan: Scan|
        #[trigger] is_scan_of(scan, d) && is_volume_metadata(m, scan, source);
    lemma_cut_of_pattern(scan.coverage_pattern, body, i);
    metadata_follows_the_cuts_of_the_same_index(m, scan, source, i);
}

/// A sweep read alone has the commanded elevation and the attributes of the cut
/// of its own index in the file's coverage pattern.
#[verifier::rlimit(50)]
pub proof fn a_sweep_of_a_file_follows_its_cut(s: SweepData, d: Seq<u8>, idx: int)
    requires
        is_sweep_read(Ok(s), d, idx),
        file_parts(d).msg5 is Some,
        0 <= idx < be16(file_parts(d).msg5->0, 6),
    ensures
        ({
            let body = file_parts(d).msg5->0;
            &&& is_commanded_elevation(s.metadata.fixed_angle, body, idx)
            &&& s.metadata.nexrad is Some
            &&& are_attributes_of_cut(s.metadata.nexrad->0.model(), body, idx)
        }),
{
    let body = file_parts(d).msg5->0;
    let scan = choose|scan: Scan|
        #[trigger] is_scan_of(scan, d) && idx < scan.sweeps@.len() && sweep_converts(
            scan.sweeps@[idx],
        ) && is_sweep_data(
            s,
            scan.sweeps@[idx],
            cut_at_index(scan.coverage_pattern.elevation_cuts@, idx),
        );
    lemma_cut_of_pattern(scan.coverage_pattern, body, idx);
    let cut = scan.coverage_pattern.elevation_cuts@[idx];
    sweep_metadata_is_that_of_its_cut(s, scan.sweeps@[idx], Some(cut));
}

/// `m` places the radar where a volume block at `p` of `body` does: the latitude
/// is the single in the four bytes from `p + 4` on, the longitude that in the
/// next four; behind them stand the heights of the site and of the tower, in
/// metres, which together are the altitude.
pub open spec fn is_placed_by(m: VolumeMetadata, body: Seq<u8>, p: int) -> bool {
    &&& m.latitude == Quantity::Single(be32(body, p + 4))
    &&& m.longitude == Quantity::Single(be32(body, p + 8))
    &&& m.altitude matches Quantity::Whole(h) && h == be16s(body, p + 12) + be16(body, p + 14)
    &&& m.altitude_agl == Some(Quantity::Whole(be16(body, p + 14) as i64))
    &&& m.instrument_name@ == utf8_lossy(body.take(4))
}

/// A volume lies where the volume block says that gives the file its site.
#[verifier::rlimit(50)]
pub proof fn a_file_lies_where_its_volume_block_says(
    m: VolumeMetadata,
    d: Seq<u8>,
    source: Seq<char>,
    body: Seq<u8>,
)
    requires
        is_metadata_read(Ok(m), d, source),
        msg31_outcome(body, 0, 0) is Ok,
        file_parts(d).site == site_of_msg31(body),
        site_of_msg31(body) is Some,
    ensures
        exists|p: int| #[trigger]
            is_block_of_kind(body, pointers_at(body, 0), 0, p) && is_placed_by(m, body, p),
{
    let scan = choose|scan: Scan|
        #[trigger] is_scan_of(scan, d) && is_volume_metadata(m, scan, source);
    volumes_lie_where_their_sites_do(m, scan, source);
    sites_are_read_from_the_volume_block(body);
    let s = site_of_msg31(body)->0;
    let p = choose|p: int|
        {
            &&& #[trigger] is_block_of_kind(body, pointers_at(body, 0), 0, p)
            &&& s.identifier == body.take(4)
            &&& s.latitude_degrees == be32(body, p + 4)
            &&& s.longitude_degrees == be32(body, p + 8)
            &&& s.site_height_m == be16s(body, p + 12)
            &&& s.tower_height_m == be16(body, p + 14)
        };
    assert(is_placed_by(m, body, p));
}

/// A file has one sweep for each run of its radials, in their order, with the
/// number of the run's elevation.
#[verifier::rlimit(50)]
pub proof fn a_file_has_a_sweep_for_each_run(v: VolumeData, d: Seq<u8>, source: Seq<char>, i: int)
    requires
        is_volume_read(Ok(v), d, source),
        0 <= i < v.sweeps@.len(),
    ensures
        ({
            let runs = group_sweeps(file_parts(d).radials);
            &&& v.sweeps@.len() == runs.len()
            &&& v.metadata.sweep_fixed_angles@.len() == runs.len()
            &&& v.metadata.sweep_group_names@.len() == runs.len()
            &&& v.sweeps@[i].metadata.sweep_number == runs[i].elevation_number
            &&& v.sweeps@[i].coordinates.azimuth@.len() == runs[i].radials.len()
        }),
{
    let scan = choose|scan: Scan|
        #[trigger] is_scan_of(scan, d) && scan_converts(scan) && is_volume_data(v, scan, source);
    let cut = cut_at_index(scan.coverage_pattern.elevation_cuts@, i);
    assert(is_sweep_data(v.sweeps@[i], scan.sweeps@[i], cut));
    sweep_metadata_is_that_of_its_cut(v.sweeps@[i], scan.sweeps@[i], cut);
    rays_are_the_radials(v.sweeps@[i], scan.sweeps@[i], cut);
    let run = scan.sweeps@[i].model();
    assert(sweep_models(scan.sweeps@)[i] == run);
    let (a, b) = (v.sweeps@[i].coordinates.azimuth@, azimuths(run.radials));
    broadcast use vstd::seq_lib::group_to_multiset_ensures;
    assert(a.to_multiset().len() == b.to_multiset().len());
}

/// An index past the last run of radials is refused by its number, and no other
/// is.
pub proof fn an_index_past_the_sweeps_is_refused(
    r: Result<SweepData, RadishError>,
    d: Seq<u8>,
    idx: usize,
)
    requires
        is_sweep_read(r, d, idx as int),
        volume_decodes(d),
    ensures
        idx >= group_sweeps(file_parts(d).radials).len() <==> r == Err::<SweepData, RadishError>(
            RadishError::InvalidSweepIndex(idx),
        ),
{
    let runs = group_sweeps(file_parts(d).radials);
    assert forall|scan: Scan| #[trigger] is_scan_of(scan, d) implies scan.sweeps@.len()
        == runs.len() by {
        assert(sweep_models(scan.sweeps@).len() == scan.sweeps@.len());
    }
}

/// A file's attributes are those of its own pattern and status messages, by the
/// bits and bytes of their bodies.
#[verifier::rlimit(50)]
pub proof fn attributes_of_a_file_are_those_of_its_messages(
    m: VolumeMetadata,
    d: Seq<u8>,
    source: Seq<char>,
)
    requires
        is_metadata_read(Ok(m), d, source),
    ensures
        m.nexrad is Some,
        file_parts(d).msg5 matches Some(body) ==> {
            let a = m.nexrad->0;
            let (s, q) = (be16(body, 18) as int, be16(body, 16) as int);
            &&& a.mpda_vcp == ((s / 2048) % 2 == 1)
            &&& a.base_tilt_vcp == ((s / 4096) % 2 == 1)
            &&& a.num_base_tilts == s / 8192
            &&& a.vcp_truncated == ((q / 16384) % 2 == 1)
            &&& a.vcp_sequence_active == ((q / 8192) % 2 == 1)
            &&& be16(body, 6) <= 255 ==> a.number_elevation_cuts == be16(body, 6)
            &&& a.vcp_pulse_width@ == pulse_width_label(body[11])
        },
        match file_parts(d).msg2 {
            Some(body) => {
                let a = m.nexrad->0;
                &&& a.avset_enabled == ((be16(body, 26) as int / 2) % 2 == 1)
                &&& a.ebc_enabled == ((be16(body, 26) as int / 8) % 2 == 1)
                &&& a.super_res_status == be16(body, 22)
                &&& a.operational_mode == be16(body, 20)
                &&& a.rda_build_number == be16(body, 18)
            },
            None => !m.nexrad->0.avset_enabled && !m.nexrad->0.ebc_enabled,
        },
        group_sweeps(file_parts(d).radials).len() < 0x1_0000_0000
            ==> m.nexrad->0.actual_elevation_cuts == group_sweeps(file_parts(d).radials).len(),
{
    let scan = choose|scan: Scan|
        #[trigger] is_scan_of(scan, d) && is_volume_metadata(m, scan, source);
    volume_attributes_are_those_of_pattern_and_status(m, scan, source);
    assert(sweep_models(scan.sweeps@).len() == scan.sweeps@.len());
    if let Some(body) = file_parts(d).msg5 {
        patterns_have_their_fields_in_front(scan.coverage_pattern, body);
    }
    if let Some(body) = file_parts(d).msg2 {
        status_fields_stand_at_their_halfwords(scan.rda_status->0, body);
    }
}

/// Ray `k` of sweep `i` of a file is one radial of the `i`-th run: its azimuth,
/// elevation and time, and in each moment the scaling of its block.
#[verifier::rlimit(50)]
pub proof fn rays_of_a_file_are_its_radials(
    v: VolumeData,
    d: Seq<u8>,
    source: Seq<char>,
    i: int,
    k: int,
) -> (j: int)
    requires
        is_volume_read(Ok(v), d, source),
        0 <= i < v.sweeps@.len(),
        0 <= k < v.sweeps@[i].coordinates.azimuth@.len(),
    ensures
        ({
            let run = group_sweeps(file_parts(d).radials)[i].radials;
            let c = v.sweeps@[i].coordinates;
            let present = present_products(run, 7);
            &&& 0 <= j < run.len()
            &&& c.azimuth@[k] == run[j].azimuth_angle_degrees
            &&& c.elevation@[k] == run[j].elevation_angle_degrees
            &&& c.time@[k] == run[j].collection_time
            &&& v.sweeps@[i].moments@.len() == present.len()
            &&& forall|m: int|
                0 <= m < present.len() ==> (#[trigger] v.sweeps@[i].moments@[m]).scaling@[k] == (
                match present[m].0.block(run[j]) {
                    Some(b) => Some(
                        RowScaling { scale: b.descriptor.scale, offset: b.descriptor.offset },
                    ),
                    None => None,
                })
        }),
{
    let scan = choose|scan: Scan|
        #[trigger] is_scan_of(scan, d) && scan_converts(scan) && is_volume_data(v, scan, source);
    let cut = cut_at_index(scan.coverage_pattern.elevation_cuts@, i);
    assert(is_sweep_data(v.sweeps@[i], scan.sweeps@[i], cut));
    let models = sweep_models(scan.sweeps@);
    assert(models[i] == scan.sweeps@[i].model());
    assert(radials_wf(models[i].radials));
    every_ray_is_one_radial(v.sweeps@[i], scan.sweeps@[i], cut, k)
}

/// A file whose messages can be read is a volume if it holds a coverage pattern or
/// a radial; one that holds neither is refused for the pattern.
pub proof fn a_pattern_or_a_radial_makes_a_volume(
    r: Result<VolumeMetadata, RadishError>,
    d: Seq<u8>,
    source: Seq<char>,
)
    requires
        parts_decode(d),
        is_metadata_read(r, d, source),
    ensures
        r is Ok <==> file_parts(d).msg5 is Some || file_parts(d).radials.len() > 0,
        r matches Err(e) ==> (e matches RadishError::Decode(text) && text@
            == "MSG_5 (Volume Coverage Pattern) missing from file"@),
{
}

} // verus!
