//! Errors of the crate.

use vstd::prelude::*;

verus! {

/// A moment that can be demultiplexed, in the order of the data header's
/// pointers.
#[derive(Debug, Clone, Copy, PartialEq, Eq, PartialOrd, Ord, Hash, Structural)]
pub enum MomentSelector {
    /// Reflectivity: `DREF` on the wire, `DBZH` in ODIM.
    Ref,
    /// Radial velocity: `DVEL`, `VRADH`.
    Vel,
    /// Spectrum width: `DSW `, `WRADH`.
    Sw,
    /// Differential reflectivity: `DZDR`, `ZDR`.
    Zdr,
    /// Differential phase: `DPHI`, `PHIDP`.
    Phi,
    /// Correlation coefficient: `DRHO`, `RHOHV`.
    Rho,
    /// Clutter filter power removed: `DCFP`, `CCORH`.
    Cfp,
}

/// Encoding of a moment block on the wire. Compared by bit pattern.
#[derive(Debug, Clone, Copy, PartialEq, Eq, Structural)]
pub struct EncodingKey {
    pub word_size: u8,
    pub scale: u32,
    pub offset: u32,
}

/// The raw grid a caller wants values on: `physical = (raw - offset) / scale`.
/// Both are bit patterns of IEEE-754 singles.
#[derive(Debug, Clone, Copy, PartialEq, Eq, Structural)]
#[non_exhaustive]
pub struct TargetEncoding {
    pub scale: u32,
    pub offset: u32,
}

/// Why a requested output array cannot hold the source data exactly.
#[derive(Debug, Clone, Copy, PartialEq, Eq, Structural)]
pub enum MomentEncodingError {
    /// There are no gate columns.
    NoGates,
    /// The fill value does not fit the output width.
    FillTooWide { fill_value: u16, word_size: u8 },
    /// There are more gate columns than the wire format can count.
    TooManyColumns { gates: usize },
    /// The element count does not fit the machine.
    ShapeOverflow { rays: usize, gates: usize },
    /// The element count exceeds the limit.
    ShapeTooLarge { rays: usize, gates: usize, elements: usize },
    /// The memory for the output is not to be had.
    Allocation { len: usize, word_size: u8 },
    /// The input holds more radials than the output has rows.
    TooManyRadials { rows: usize, rays: usize },
    /// A radial holds more gates than the output has columns.
    TooManyGates { present: usize, gates: usize },
    /// Two blocks differ in encoding and there is no common target grid.
    MixedEncodings { moment: MomentSelector, first: EncodingKey, next: EncodingKey },
    /// The block is not of the output width and there is no target grid.
    WordSizeMismatch { moment: MomentSelector, source: EncodingKey, word_size: u8 },
    /// A scale is zero, infinite or not a number.
    DegenerateScale { moment: MomentSelector, source: EncodingKey, target: TargetEncoding },
    /// The ratio of the scales is not a whole number from 1 up.
    InexactRatio {
        moment: MomentSelector,
        source: EncodingKey,
        target: TargetEncoding,
        word_size: u8,
    },
    /// The bias between the grids is not a whole number from 0 up.
    InexactBias {
        moment: MomentSelector,
        source: EncodingKey,
        target: TargetEncoding,
        word_size: u8,
    },
    /// The widest source word falls off the target grid.
    GridOverflow {
        moment: MomentSelector,
        source: EncodingKey,
        target: TargetEncoding,
        word_size: u8,
        widest: u64,
        max: u32,
    },
}

/// Errors of the crate.
#[derive(Debug)]
pub enum RadishError {
    /// The input is of no format that is known.
    InvalidFormat(String),
    /// The input or the request is not supported.
    Unsupported(String),
    /// A NEXRAD byte stream could not be decoded.
    Decode(String),
    /// An output array cannot hold the source data exactly.
    MomentEncoding(MomentEncodingError),
    /// A record lacks what it must hold.
    MalformedRecord { offset: usize, msg: String },
    /// There is no sweep of this index.
    InvalidSweepIndex(usize),
    /// A file lacks a variable.
    MissingVariable(String),
    /// A file lacks an attribute, or it is malformed.
    MissingAttribute(String),
    /// The NetCDF library failed.
    NetCdf(String),
    /// A value could not be converted.
    Conversion(String),
    /// Reading a file failed.
    Io(String),
}

} // verus!
