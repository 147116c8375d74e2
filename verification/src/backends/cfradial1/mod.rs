//! CfRadial1 backend for CF/Radial NetCDF files.
//!
//! The variables and attributes of an open file come in as plain values, each
//! with the error of its reading if there was one; this module turns them into
//! the common data model.

pub mod helpers;
pub mod sniff;

use crate::backends::cfradial1::helpers::{
    opt_text, or_unknown, parse_platform_type, parse_sweep_mode, plain_text_of, platform_of,
    read_float_attr, read_plain_string_attr, read_string_attr, single_of, sweep_mode_of,
    text_of, text_or_unknown, AttrValue,
};
use crate::backends::cfradial1::sniff::{is_cfradial1_head, looks_like_cfradial1};
use crate::backends::common::buffer::{shape_cells, shape_error};
use crate::backends::common::sniff::FileProbe;
use crate::backends::{
    bytes_unsupported, extension_is_listed, has_listed_extension, refuse_bytes, texts,
    RadarBackend,
};
use crate::errors::RadishError;
use crate::text::{lowercased, same_text};
use crate::time::{parse_rfc3339, rfc3339, Timestamp};
use crate::types::{
    are_group_names, generate_sweep_names, PlatformType, Quantity, SweepMetadata, VolumeData,
    VolumeMetadata,
};
use vstd::prelude::*;
use vstd::slice::{slice_subrange, slice_to_vec};

verus! {

/// Backend for CfRadial1 (CF/Radial NetCDF) files.
pub struct CfRadial1Backend;

impl CfRadial1Backend {
    /// Create a new backend instance.
    pub fn new() -> (b: Self)
        ensures
            b == CfRadial1Backend,
    {
        CfRadial1Backend
    }
}

impl Default for CfRadial1Backend {
    fn default() -> (b: Self)
        ensures
            b == CfRadial1Backend,
    {
        Self::new()
    }
}

impl RadarBackend for CfRadial1Backend {
    open spec fn label(&self) -> Seq<char> {
        "cfradial1"@
    }

    open spec fn summary(&self) -> Seq<char> {
        "CF/Radial NetCDF format (version 1)"@
    }

    open spec fn extension_list(&self) -> Seq<Seq<char>> {
        seq!["nc"@, "nc4"@, "netcdf"@]
    }

    open spec fn knows_file(&self, file: FileProbe) -> bool {
        has_listed_extension(file, self.extension_list())
    }

    open spec fn knows_head(&self, head: Seq<u8>) -> bool {
        is_cfradial1_head(head)
    }

    open spec fn reads_bytes(&self, data: Seq<u8>, r: Result<VolumeData, RadishError>) -> bool {
        bytes_unsupported(r, self.label())
    }

    fn name(&self) -> (s: &'static str) {
        "cfradial1"
    }

    fn description(&self) -> (s: &'static str) {
        "CF/Radial NetCDF format (version 1)"
    }

    fn supported_extensions(&self) -> (v: Vec<&'static str>) {
        let mut v: Vec<&'static str> = Vec::new();
        v.push("nc");
        v.push("nc4");
        v.push("netcdf");
        assert(texts(v@) =~= self.extension_list());
        v
    }

    fn can_read(&self, file: &FileProbe) -> (b: bool) {
        let extensions = self.supported_extensions();
        extension_is_listed(file, extensions.as_slice())
    }

    fn can_read_bytes(&self, head: &[u8]) -> (b: bool) {
        looks_like_cfradial1(head)
    }

    /// The NetCDF library opens files only.
    fn read_bytes_volume(&self, data: Vec<u8>) -> (r: Result<VolumeData, RadishError>) {
        refuse_bytes(self.name())
    }
}

/// What a file holds of its volume. Numbers are bit patterns of IEEE-754
/// doubles.
pub struct CfVolumeInput {
    pub instrument_name: Option<AttrValue>,
    pub institution: Option<AttrValue>,
    pub latitude: Result<u64, RadishError>,
    pub longitude: Result<u64, RadishError>,
    pub altitude: Result<u64, RadishError>,
    pub altitude_agl: Option<u64>,
    pub time_coverage_start: Option<AttrValue>,
    pub time_coverage_end: Option<AttrValue>,
    pub sweep_number: Result<Vec<i32>, RadishError>,
    pub fixed_angle: Result<Vec<u64>, RadishError>,
    pub volume_number: Option<u32>,
    pub frequency: Option<u64>,
    pub platform_type: Option<AttrValue>,
}

/// The point in time that an attribute names, if it does.
pub open spec fn time_of_attr(v: Option<AttrValue>) -> Option<Timestamp> {
    match text_of(v) {
        Some(s) => rfc3339(s),
        None => None,
    }
}

/// The platform that an attribute names, if it is known.
pub open spec fn platform_of_attr(v: Option<AttrValue>) -> Option<PlatformType> {
    match text_of(v) {
        Some(s) => platform_of(lowercased(s)),
        None => None,
    }
}

fn read_time_attr(v: Option<AttrValue>) -> (t: Option<Timestamp>)
    ensures
        t == time_of_attr(v),
{
    match read_string_attr(v) {
        Some(s) => parse_rfc3339(s.as_str()),
        None => None,
    }
}

fn read_platform_attr(v: Option<AttrValue>) -> (p: Option<PlatformType>)
    ensures
        p == platform_of_attr(v),
{
    match read_string_attr(v) {
        Some(s) => parse_platform_type(s.as_str()),
        None => None,
    }
}

/// An optional double as a quantity.
pub open spec fn opt_double(bits: Option<u64>) -> Option<Quantity> {
    match bits {
        Some(bits) => Some(Quantity::Double(bits)),
        None => None,
    }
}

fn to_opt_double(bits: Option<u64>) -> (q: Option<Quantity>)
    ensures
        q == opt_double(bits),
{
    match bits {
        Some(bits) => Some(Quantity::Double(bits)),
        None => None,
    }
}

/// Doubles as quantities.
pub open spec fn doubles(bits: Seq<u64>) -> Seq<Quantity> {
    bits.map_values(|b: u64| Quantity::Double(b))
}

fn to_doubles(bits: &[u64]) -> (q: Vec<Quantity>)
    ensures
        q@ == doubles(bits@),
{
    let mut q: Vec<Quantity> = Vec::with_capacity(bits.len());
    let mut i: usize = 0;
    while i < bits.len()
        invariant
            i <= bits@.len(),
            q@.len() == i,
            forall|j: int| 0 <= j < i ==> #[trigger] q@[j] == Quantity::Double(bits@[j]),
        decreases bits@.len() - i,
    {
        q.push(Quantity::Double(bits[i]));
        i += 1;
    }
    assert(q@ =~= doubles(bits@));
    q
}

/// What a volume must have to be described.
pub open spec fn volume_is_described(input: CfVolumeInput) -> bool {
    &&& input.latitude is Ok
    &&& input.longitude is Ok
    &&& input.altitude is Ok
    &&& time_of_attr(input.time_coverage_start) is Some
    &&& time_of_attr(input.time_coverage_end) is Some
    &&& input.sweep_number is Ok
    &&& input.fixed_angle is Ok
}

/// `e` says that an attribute is missing or malformed.
pub open spec fn is_missing_attribute(e: RadishError, name: Seq<char>) -> bool {
    e matches RadishError::MissingAttribute(text) && text@ == name
}

/// `e` is the first thing that a volume lacks.
pub open spec fn is_volume_lack(e: RadishError, input: CfVolumeInput) -> bool {
    if input.latitude is Err {
        e == input.latitude->Err_0
    } else if input.longitude is Err {
        e == input.longitude->Err_0
    } else if input.altitude is Err {
        e == input.altitude->Err_0
    } else if time_of_attr(input.time_coverage_start) is None {
        is_missing_attribute(e, "time_coverage_start"@)
    } else if time_of_attr(input.time_coverage_end) is None {
        is_missing_attribute(e, "time_coverage_end"@)
    } else if input.sweep_number is Err {
        e == input.sweep_number->Err_0
    } else {
        input.fixed_angle is Err && e == input.fixed_angle->Err_0
    }
}

/// `m` is the metadata of a volume that is described.
pub open spec fn is_cf_metadata(m: VolumeMetadata, input: CfVolumeInput) -> bool {
    &&& m.instrument_name@ == or_unknown(text_of(input.instrument_name))
    &&& m.institution@ == or_unknown(text_of(input.institution))
    &&& m.platform_type == platform_of_attr(input.platform_type)
    &&& m.latitude == Quantity::Double(input.latitude->Ok_0)
    &&& m.longitude == Quantity::Double(input.longitude->Ok_0)
    &&& m.altitude == Quantity::Double(input.altitude->Ok_0)
    &&& m.altitude_agl == opt_double(input.altitude_agl)
    &&& Some(m.time_coverage_start) == time_of_attr(input.time_coverage_start)
    &&& Some(m.time_coverage_end) == time_of_attr(input.time_coverage_end)
    &&& m.volume_number == (match input.volume_number {
        Some(n) => n,
        None => 0,
    })
    &&& m.frequency == opt_double(input.frequency)
    &&& are_group_names(m.sweep_group_names@, input.sweep_number->Ok_0@.len() as int)
    &&& m.sweep_fixed_angles@ == doubles(input.fixed_angle->Ok_0@)
    &&& m.attributes@.len() == 0
    &&& m.nexrad is None
}

/// What a file holds of one of its sweeps. Times and fixed angles are bit
/// patterns of IEEE-754 doubles, the other coordinates of singles.
pub struct CfSweepInput {
    pub sweep_start_ray_index: Result<Vec<i32>, RadishError>,
    pub sweep_end_ray_index: Result<Vec<i32>, RadishError>,
    pub sweep_number: Result<Vec<i32>, RadishError>,
    pub fixed_angle: Result<Vec<u64>, RadishError>,
    /// The entries; `None` where one could not be decoded.
    pub sweep_mode: Result<Vec<Option<String>>, RadishError>,
    pub time: Result<Vec<u64>, RadishError>,
    pub range: Result<Vec<u32>, RadishError>,
    pub azimuth: Result<Vec<u32>, RadishError>,
    pub elevation: Result<Vec<u32>, RadishError>,
}

/// One sweep of a file: its rays are `start_ray` to `end_ray`, both counted.
pub struct CfSweep {
    pub metadata: SweepMetadata,
    pub start_ray: usize,
    pub end_ray: usize,
    pub time: Vec<u64>,
    pub range: Vec<u32>,
    pub azimuth: Vec<u32>,
    pub elevation: Vec<u32>,
}

/// All that a sweep needs could be read.
pub open spec fn sweep_is_readable(input: CfSweepInput) -> bool {
    &&& input.sweep_start_ray_index is Ok
    &&& input.sweep_end_ray_index is Ok
    &&& input.sweep_number is Ok
    &&& input.fixed_angle is Ok
    &&& input.sweep_mode is Ok
    &&& input.time is Ok
    &&& input.range is Ok
    &&& input.azimuth is Ok
    &&& input.elevation is Ok
}

/// The variables of a readable file agree about a sweep: each has an entry for
/// it, and its rays lie inside the coordinates.
pub open spec fn sweep_is_consistent(input: CfSweepInput, idx: int) -> bool {
    let start = input.sweep_start_ray_index->Ok_0@[idx];
    let end = input.sweep_end_ray_index->Ok_0@[idx];
    &&& idx < input.sweep_end_ray_index->Ok_0@.len()
    &&& idx < input.sweep_number->Ok_0@.len()
    &&& idx < input.fixed_angle->Ok_0@.len()
    &&& idx < input.sweep_mode->Ok_0@.len()
    &&& 0 <= start <= end + 1
    &&& 0 <= end < input.time->Ok_0@.len()
    &&& end < input.azimuth->Ok_0@.len()
    &&& end < input.elevation->Ok_0@.len()
}

/// `e` is the first thing that keeps a sweep from being read.
pub open spec fn is_sweep_lack(e: RadishError, input: CfSweepInput, idx: int) -> bool {
    if input.sweep_start_ray_index is Err {
        e == input.sweep_start_ray_index->Err_0
    } else if input.sweep_end_ray_index is Err {
        e == input.sweep_end_ray_index->Err_0
    } else if idx >= input.sweep_start_ray_index->Ok_0@.len() {
        e == RadishError::InvalidSweepIndex(idx as usize)
    } else if input.sweep_number is Err {
        e == input.sweep_number->Err_0
    } else if input.fixed_angle is Err {
        e == input.fixed_angle->Err_0
    } else if input.sweep_mode is Err {
        e == input.sweep_mode->Err_0
    } else if input.time is Err {
        e == input.time->Err_0
    } else if input.range is Err {
        e == input.range->Err_0
    } else if input.azimuth is Err {
        e == input.azimuth->Err_0
    } else {
        input.elevation is Err && e == input.elevation->Err_0
    }
}

/// A sweep number as it is reported: two's complement.
pub open spec fn reported_number(n: i32) -> int {
    if n < 0 {
        n + 0x1_0000_0000
    } else {
        n as int
    }
}

/// `s` is a sweep of a readable file.
pub open spec fn is_cf_sweep(s: CfSweep, input: CfSweepInput, idx: int) -> bool {
    let start = input.sweep_start_ray_index->Ok_0@[idx] as int;
    let end = input.sweep_end_ray_index->Ok_0@[idx] as int;
    &&& s.metadata.sweep_number == reported_number(input.sweep_number->Ok_0@[idx])
    &&& s.metadata.sweep_mode == sweep_mode_of(
        lowercased(or_unknown(opt_text(input.sweep_mode->Ok_0@[idx]))),
    )
    &&& s.metadata.fixed_angle == Quantity::Double(input.fixed_angle->Ok_0@[idx])
    &&& s.metadata.nexrad is None
    &&& s.start_ray == start
    &&& s.end_ray == end
    &&& s.time@ == input.time->Ok_0@.subrange(start, end + 1)
    &&& s.range@ == input.range->Ok_0@
    &&& s.azimuth@ == input.azimuth->Ok_0@.subrange(start, end + 1)
    &&& s.elevation@ == input.elevation->Ok_0@.subrange(start, end + 1)
}

/// A two-dimensional variable that is not a coordinate holds a moment.
pub open spec fn holds_moment(name: Seq<char>, dimensions: int) -> bool {
    &&& name != "time"@
    &&& name != "range"@
    &&& name != "azimuth"@
    &&& name != "elevation"@
    &&& dimensions == 2
}

/// Whether a variable holds a moment.
pub fn is_moment_variable(name: &str, dimensions: usize) -> (b: bool)
    ensures
        b == holds_moment(name@, dimensions as int),
{
    !same_text(name, "time") && !same_text(name, "range") && !same_text(name, "azimuth")
        && !same_text(name, "elevation") && dimensions == 2
}

/// A moment variable: its values for the rays of a sweep, row by row, and its
/// attributes. Numbers are bit patterns of IEEE-754 singles.
pub struct CfMomentInput {
    pub data: Result<Vec<u32>, RadishError>,
    pub units: Option<AttrValue>,
    pub fill_value: Option<AttrValue>,
    pub scale_factor: Option<AttrValue>,
    pub add_offset: Option<AttrValue>,
    pub standard_name: Option<AttrValue>,
    pub long_name: Option<AttrValue>,
}

/// A moment of a sweep: `rows` rays of `cols` gates, row by row. Numbers are
/// bit patterns of IEEE-754 singles.
pub struct CfMoment {
    pub name: String,
    pub units: String,
    pub rows: usize,
    pub cols: usize,
    pub data: Vec<u32>,
    pub fill_value: Option<u32>,
    pub scale_factor: Option<u32>,
    pub add_offset: Option<u32>,
    pub standard_name: Option<String>,
    pub long_name: Option<String>,
}

/// The values could be read and are as many as the shape asks for.
pub open spec fn moment_is_readable(input: CfMomentInput, rows: int, cols: int) -> bool {
    input.data is Ok && shape_error(rows, cols, input.data->Ok_0@.len() as int) is None
}

/// `e` is what keeps a moment from being read.
pub open spec fn is_moment_lack(
    e: RadishError,
    input: CfMomentInput,
    rows: int,
    cols: int,
) -> bool {
    match input.data {
        Err(read) => e == read,
        Ok(data) => e matches RadishError::Conversion(text) && shape_error(
            rows,
            cols,
            data@.len() as int,
        ) == Some(text@),
    }
}

/// `m` is a moment that could be read.
pub open spec fn is_cf_moment(
    m: CfMoment,
    name: Seq<char>,
    input: CfMomentInput,
    rows: int,
    cols: int,
) -> bool {
    &&& m.name@ == name
    &&& m.units@ == or_unknown(text_of(input.units))
    &&& m.rows == rows
    &&& m.cols == cols
    &&& m.data@ == input.data->Ok_0@
    &&& m.fill_value == single_of(input.fill_value)
    &&& m.scale_factor == single_of(input.scale_factor)
    &&& m.add_offset == single_of(input.add_offset)
    &&& opt_text(m.standard_name) == plain_text_of(input.standard_name)
    &&& opt_text(m.long_name) == plain_text_of(input.long_name)
}

/// A variable of a file, with its values and attributes.
pub struct CfVariable {
    pub name: String,
    pub dimensions: usize,
    pub input: CfMomentInput,
}

/// The indices of those among the first `n` variables that hold moments which
/// can be read.
pub open spec fn kept_variables(variables: Seq<CfVariable>, rows: int, cols: int, n: int) -> Seq<int>
    decreases n,
{
    if n <= 0 {
        Seq::empty()
    } else if holds_moment(variables[n - 1].name@, variables[n - 1].dimensions as int)
        && moment_is_readable(variables[n - 1].input, rows, cols) {
        kept_variables(variables, rows, cols, n - 1).push(n - 1)
    } else {
        kept_variables(variables, rows, cols, n - 1)
    }
}

/// `moments` are those of the variables with the given indices.
pub open spec fn are_cf_moments(
    moments: Seq<CfMoment>,
    variables: Seq<CfVariable>,
    kept: Seq<int>,
    rows: int,
    cols: int,
) -> bool {
    &&& moments.len() == kept.len()
    &&& forall|k: int|
        0 <= k < kept.len() ==> is_cf_moment(
            #[trigger] moments[k],
            variables[kept[k]].name@,
            variables[kept[k]].input,
            rows,
            cols,
        )
}

impl CfRadial1Backend {
    /// The metadata of a volume.
    pub fn read_volume_metadata(&self, input: CfVolumeInput) -> (r: Result<
        VolumeMetadata,
        RadishError,
    >)
        ensures
            match r {
                Ok(m) => volume_is_described(input) && is_cf_metadata(m, input),
                Err(e) => !volume_is_described(input) && is_volume_lack(e, input),
            },
    {
        let latitude: u64 = input.latitude?;
        let longitude: u64 = input.longitude?;
        let altitude: u64 = input.altitude?;
        let time_coverage_start = match read_time_attr(input.time_coverage_start) {
            Some(t) => t,
            None => {
                return Err(RadishError::MissingAttribute("time_coverage_start".to_owned()));
            },
        };
        let time_coverage_end = match read_time_attr(input.time_coverage_end) {
            Some(t) => t,
            None => {
                return Err(RadishError::MissingAttribute("time_coverage_end".to_owned()));
            },
        };
        let sweep_number = input.sweep_number?;
        let fixed_angle = input.fixed_angle?;
        let volume_number: u32 = match input.volume_number {
            Some(n) => n,
            None => 0,
        };
        Ok(
            VolumeMetadata {
                instrument_name: text_or_unknown(read_string_attr(input.instrument_name)),
                institution: text_or_unknown(read_string_attr(input.institution)),
                platform_type: read_platform_attr(input.platform_type),
                latitude: Quantity::Double(latitude),
                longitude: Quantity::Double(longitude),
                altitude: Quantity::Double(altitude),
                altitude_agl: to_opt_double(input.altitude_agl),
                time_coverage_start,
                time_coverage_end,
                volume_number,
                frequency: to_opt_double(input.frequency),
                sweep_group_names: generate_sweep_names(sweep_number.len()),
                sweep_fixed_angles: to_doubles(fixed_angle.as_slice()),
                attributes: Vec::new(),
                nexrad: None,
            },
        )
    }

    /// One sweep of a file.
    pub fn read_sweep_data(&self, input: CfSweepInput, sweep_idx: usize) -> (r: Result<
        CfSweep,
        RadishError,
    >)
        requires
            sweep_is_readable(input) && sweep_idx < input.sweep_start_ray_index->Ok_0@.len()
                ==> sweep_is_consistent(input, sweep_idx as int),
        ensures
            match r {
                Ok(s) => {
                    &&& sweep_is_readable(input)
                    &&& sweep_idx < input.sweep_start_ray_index->Ok_0@.len()
                    &&& is_cf_sweep(s, input, sweep_idx as int)
                },
                Err(e) => is_sweep_lack(e, input, sweep_idx as int),
            },
    {
        let starts = input.sweep_start_ray_index?;
        let ends = input.sweep_end_ray_index?;
        if sweep_idx >= starts.len() {
            return Err(RadishError::InvalidSweepIndex(sweep_idx));
        }
        let sweep_number = input.sweep_number?;
        let fixed_angle = input.fixed_angle?;
        let sweep_mode = input.sweep_mode?;
        let time = input.time?;
        let range = input.range?;
        let azimuth = input.azimuth?;
        let elevation = input.elevation?;
        let start: usize = starts[sweep_idx] as usize;
        let end: usize = ends[sweep_idx] as usize;
        let number: i32 = sweep_number[sweep_idx];
        let metadata = SweepMetadata {
            sweep_number: if number < 0 {
                (number as i64 + 0x1_0000_0000) as u32
            } else {
                number as u32
            },
            sweep_mode: match &sweep_mode[sweep_idx] {
                Some(text) => parse_sweep_mode(text.as_str()),
                None => parse_sweep_mode("unknown"),
            },
            fixed_angle: Quantity::Double(fixed_angle[sweep_idx]),
            nexrad: None,
        };
        Ok(
            CfSweep {
                metadata,
                start_ray: start,
                end_ray: end,
                time: slice_to_vec(slice_subrange(time.as_slice(), start, end + 1)),
                range,
                azimuth: slice_to_vec(slice_subrange(azimuth.as_slice(), start, end + 1)),
                elevation: slice_to_vec(slice_subrange(elevation.as_slice(), start, end + 1)),
            },
        )
    }

    /// A moment of a sweep whose rays are `start_ray` to `end_ray`.
    pub fn read_moment(
        &self,
        var_name: &str,
        start_ray: usize,
        end_ray: usize,
        num_gates: usize,
        input: CfMomentInput,
    ) -> (r: Result<CfMoment, RadishError>)
        requires
            start_ray <= end_ray,
            end_ray - start_ray < usize::MAX,
        ensures
            ({
                let rows = end_ray - start_ray + 1;
                let cols = num_gates as int;
                match r {
                    Ok(m) => {
                        &&& moment_is_readable(input, rows, cols)
                        &&& is_cf_moment(m, var_name@, input, rows, cols)
                    },
                    Err(e) => {
                        &&& !moment_is_readable(input, rows, cols)
                        &&& is_moment_lack(e, input, rows, cols)
                    },
                }
            }),
    {
        let rows: usize = end_ray - start_ray + 1;
        let values = input.data?;
        let data = match shape_cells(rows, num_gates, values) {
            Ok(data) => data,
            Err(text) => {
                return Err(RadishError::Conversion(text));
            },
        };
        Ok(
            CfMoment {
                name: var_name.to_owned(),
                units: text_or_unknown(read_string_attr(input.units)),
                rows,
                cols: num_gates,
                data,
                fill_value: read_float_attr(input.fill_value),
                scale_factor: read_float_attr(input.scale_factor),
                add_offset: read_float_attr(input.add_offset),
                standard_name: read_plain_string_attr(input.standard_name),
                long_name: read_plain_string_attr(input.long_name),
            },
        )
    }

    /// The moments of a sweep. Variables that hold no moment, and moments that
    /// cannot be read, are left out.
    pub fn read_moments(
        &self,
        start_ray: usize,
        end_ray: usize,
        num_gates: usize,
        variables: Vec<CfVariable>,
    ) -> (moments: Vec<CfMoment>)
        requires
            start_ray <= end_ray,
            end_ray - start_ray < usize::MAX,
        ensures
            ({
                let rows = end_ray - start_ray + 1;
                let cols = num_gates as int;
                are_cf_moments(
                    moments@,
                    variables@,
                    kept_variables(variables@, rows, cols, variables@.len() as int),
                    rows,
                    cols,
                )
            }),
    {
        let ghost all = variables@;
        let ghost rows = end_ray - start_ray + 1;
        let ghost cols = num_gates as int;
        let mut moments: Vec<CfMoment> = Vec::new();
        for variable in it: variables.into_iter()
            invariant
                start_ray <= end_ray,
                end_ray - start_ray < usize::MAX,
                rows == end_ray - start_ray + 1,
                cols == num_gates,
                it.seq() == all,
                are_cf_moments(
                    moments@,
                    all,
                    kept_variables(all, rows, cols, it.index() as int),
                    rows,
                    cols,
                ),
        {
            assert(variable == all[it.index() as int]);
            if is_moment_variable(variable.name.as_str(), variable.dimensions) {
                if let Ok(m) = self.read_moment(
                    variable.name.as_str(),
                    start_ray,
                    end_ray,
                    num_gates,
                    variable.input,
                ) {
                    moments.push(m);
                }
            }
        }
        moments
    }
}

/// A volume lies where the file says: its latitude, longitude and altitude are the
/// file's own doubles, and so are its fixed angles, in order. Its coverage starts
/// and ends at the times that the attributes of those names give.
pub proof fn volumes_carry_the_values_of_the_file(m: VolumeMetadata, input: CfVolumeInput, i: int)
    requires
        volume_is_described(input),
        is_cf_metadata(m, input),
    ensures
        input.latitude matches Ok(x) && m.latitude == Quantity::Double(x),
        input.longitude matches Ok(x) && m.longitude == Quantity::Double(x),
        input.altitude matches Ok(x) && m.altitude == Quantity::Double(x),
        match input.altitude_agl {
            Some(x) => m.altitude_agl == Some(Quantity::Double(x)),
            None => m.altitude_agl is None,
        },
        match input.frequency {
            Some(x) => m.frequency == Some(Quantity::Double(x)),
            None => m.frequency is None,
        },
        text_of(input.time_coverage_start) matches Some(s) && rfc3339(s) == Some(
            m.time_coverage_start,
        ),
        text_of(input.time_coverage_end) matches Some(s) && rfc3339(s) == Some(
            m.time_coverage_end,
        ),
        input.fixed_angle matches Ok(angles) && {
            &&& m.sweep_fixed_angles@.len() == angles@.len()
            &&& 0 <= i < angles@.len() ==> m.sweep_fixed_angles@[i] == Quantity::Double(angles@[i])
        },
        input.sweep_number matches Ok(numbers) && m.sweep_group_names@.len() == numbers@.len(),
        input.volume_number == Some(m.volume_number) || (input.volume_number is None
            && m.volume_number == 0),
        input.instrument_name matches Some(AttrValue::Str(s)) ==> m.instrument_name@ == s@,
        input.instrument_name is None ==> m.instrument_name@ == "unknown"@,
        input.institution matches Some(AttrValue::Str(s)) ==> m.institution@ == s@,
        input.institution is None ==> m.institution@ == "unknown"@,
        input.platform_type matches Some(AttrValue::Str(s)) ==> m.platform_type == platform_of(
            lowercased(s@),
        ),
        input.platform_type is None ==> m.platform_type is None,
        m.nexrad is None && m.attributes@.len() == 0,
{
}

/// Ray `k` of a sweep is one ray of the file throughout, `k` behind the sweep's
/// first; there are as many as from the first to the last, both counted. The
/// number, mode and fixed angle are those of the same index.
pub proof fn rays_of_a_sweep_are_rays_of_the_file(
    s: CfSweep,
    input: CfSweepInput,
    idx: int,
    k: int,
)
    requires
        sweep_is_readable(input),
        0 <= idx < input.sweep_start_ray_index->Ok_0@.len(),
        sweep_is_consistent(input, idx),
        is_cf_sweep(s, input, idx),
        0 <= k <= input.sweep_end_ray_index->Ok_0@[idx] - input.sweep_start_ray_index->Ok_0@[idx],
    ensures
        ({
            let first = input.sweep_start_ray_index->Ok_0@[idx] as int;
            let count = input.sweep_end_ray_index->Ok_0@[idx] - first + 1;
            &&& s.start_ray == first && s.end_ray == first + count - 1
            &&& s.time@.len() == count && s.time@[k] == input.time->Ok_0@[first + k]
            &&& s.azimuth@.len() == count && s.azimuth@[k] == input.azimuth->Ok_0@[first + k]
            &&& s.elevation@.len() == count && s.elevation@[k] == input.elevation->Ok_0@[first + k]
            &&& s.range@ == input.range->Ok_0@
            &&& s.metadata.fixed_angle == Quantity::Double(input.fixed_angle->Ok_0@[idx])
            &&& input.sweep_number->Ok_0@[idx] >= 0 ==> s.metadata.sweep_number
                == input.sweep_number->Ok_0@[idx]
            &&& input.sweep_number->Ok_0@[idx] < 0 ==> s.metadata.sweep_number
                == input.sweep_number->Ok_0@[idx] + 4294967296
            &&& input.sweep_mode->Ok_0@[idx] matches Some(text) ==> s.metadata.sweep_mode
                == sweep_mode_of(lowercased(text@))
        }),
{
}

/// A moment has a value for each gate of each ray: that of gate `g` of ray `r` is
/// the file's value number `r * gates + g`, and there are no others. Its
/// attributes are the variable's own.
pub proof fn moments_have_a_value_for_each_gate(
    m: CfMoment,
    name: Seq<char>,
    input: CfMomentInput,
    rows: int,
    cols: int,
    r: int,
    g: int,
)
    requires
        0 <= r < rows,
        0 <= g < cols,
        moment_is_readable(input, rows, cols),
        is_cf_moment(m, name, input, rows, cols),
    ensures
        m.name@ == name,
        m.rows == rows && m.cols == cols,
        m.data@.len() == rows * cols,
        0 <= r * cols + g < m.data@.len(),
        m.data@[r * cols + g] == input.data->Ok_0@[r * cols + g],
        input.units matches Some(AttrValue::Str(s)) ==> m.units@ == s@,
        input.units is None ==> m.units@ == "unknown"@,
        input.fill_value matches Some(AttrValue::Float(x)) ==> m.fill_value == Some(x),
        input.scale_factor matches Some(AttrValue::Float(x)) ==> m.scale_factor == Some(x),
        input.add_offset matches Some(AttrValue::Float(x)) ==> m.add_offset == Some(x),
        input.standard_name matches Some(AttrValue::Str(s)) ==> opt_text(m.standard_name) == Some(
            s@,
        ),
        input.long_name matches Some(AttrValue::Str(s)) ==> opt_text(m.long_name) == Some(s@),
{
    assert(0 <= r * cols + g < rows * cols) by (nonlinear_arith)
        requires
            0 <= r < rows,
            0 <= g < cols,
    ;
}

/// The variables that are kept are those of two dimensions that are no
/// coordinates and could be read, each once and in the order of the file.
pub proof fn readable_moments_are_kept(variables: Seq<CfVariable>, rows: int, cols: int, n: int)
    requires
        0 <= n <= variables.len(),
    ensures
        ({
            let kept = kept_variables(variables, rows, cols, n);
            &&& forall|k: int| 0 <= k < kept.len() ==> 0 <= #[trigger] kept[k] < n
            &&& forall|j: int, k: int|
                0 <= j < k < kept.len() ==> #[trigger] kept[j] < #[trigger] kept[k]
            &&& forall|i: int|
                0 <= i < n ==> {
                    let v = #[trigger] variables[i];
                    kept.contains(i) <==> v.dimensions == 2 && v.name@ != "time"@ && v.name@
                        != "range"@ && v.name@ != "azimuth"@ && v.name@ != "elevation"@
                        && moment_is_readable(v.input, rows, cols)
                }
        }),
    decreases n,
{
    if n > 0 {
        readable_moments_are_kept(variables, rows, cols, n - 1);
        let before = kept_variables(variables, rows, cols, n - 1);
        let kept = kept_variables(variables, rows, cols, n);
        assert forall|i: int| 0 <= i < n implies {
            let v = #[trigger] variables[i];
            kept.contains(i) <==> v.dimensions == 2 && v.name@ != "time"@ && v.name@ != "range"@
                && v.name@ != "azimuth"@ && v.name@ != "elevation"@ && moment_is_readable(
                v.input,
                rows,
                cols,
            )
        } by {
            if kept.len() > before.len() {
                assert(kept == before.push(n - 1));
                assert(kept.last() == n - 1);
                if before.contains(i) {
                    let k = choose|k: int| 0 <= k < before.len() && before[k] == i;
                    assert(kept[k] == i);
                }
            } else {
                assert(kept == before);
            }
        }
    }
}

/// CfRadial1 files are told by their extension, letter for letter: `nc`, `nc4` or
/// `netcdf`.
pub proof fn netcdf_files_go_by_their_extension(file: FileProbe)
    ensures
        CfRadial1Backend.knows_file(file) <==> (file.extension matches Some(e) && (e@ == "nc"@ || e@
            == "nc4"@ || e@ == "netcdf"@)),
{
    let list = CfRadial1Backend.extension_list();
    assert(list[0] == "nc"@ && list[1] == "nc4"@ && list[2] == "netcdf"@);
    if let Some(e) = file.extension {
        if e@ == "nc"@ {
            assert(list[0] == file.extension->0@);
        }
        if e@ == "nc4"@ {
            assert(list[1] == file.extension->0@);
        }
        if e@ == "netcdf"@ {
            assert(list[2] == file.extension->0@);
        }
    }
}

/// A volume that lacks one thing is refused for it.
pub proof fn volumes_are_refused_for_what_they_lack(e: RadishError, input: CfVolumeInput)
    requires
        is_volume_lack(e, input),
        !volume_is_described(input),
    ensures
        ({
            let start = time_of_attr(input.time_coverage_start) is Some;
            let end = time_of_attr(input.time_coverage_end) is Some;
            let placed = input.latitude is Ok && input.longitude is Ok && input.altitude is Ok;
            &&& input.longitude is Ok && input.altitude is Ok && start && end
                && input.sweep_number is Ok && input.fixed_angle is Ok ==> input.latitude == Err::<
                u64,
                RadishError,
            >(e)
            &&& input.latitude is Ok && input.altitude is Ok && start && end
                && input.sweep_number is Ok && input.fixed_angle is Ok && input.longitude is Err
                ==> input.longitude == Err::<u64, RadishError>(e)
            &&& input.latitude is Ok && input.longitude is Ok && start && end
                && input.sweep_number is Ok && input.fixed_angle is Ok && input.altitude is Err
                ==> input.altitude == Err::<u64, RadishError>(e)
            &&& placed && end && !start ==> (e matches RadishError::MissingAttribute(name) && name@
                == "time_coverage_start"@)
            &&& placed && start && !end ==> (e matches RadishError::MissingAttribute(name) && name@
                == "time_coverage_end"@)
            &&& placed && start && end && input.fixed_angle is Ok ==> input.sweep_number == Err::<
                Vec<i32>,
                RadishError,
            >(e)
            &&& placed && start && end && input.sweep_number is Ok ==> input.fixed_angle == Err::<
                Vec<u64>,
                RadishError,
            >(e)
        }),
{
}

/// A sweep past the last of a readable file is refused by its index.
pub proof fn sweeps_past_the_last_are_refused(e: RadishError, input: CfSweepInput, idx: usize)
    requires
        sweep_is_readable(input),
        is_sweep_lack(e, input, idx as int),
    ensures
        idx >= input.sweep_start_ray_index->Ok_0@.len(),
        e == RadishError::InvalidSweepIndex(idx),
{
}

} // verus!
