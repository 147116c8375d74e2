//! Per-moment demultiplexer.
//!
//! One record interleaves every moment of some 120 radials. This module pulls
//! one moment out of one record, or out of a span of compressed records, as
//! the raw words that the radar transmitted, in a row-major array of
//! `(rays, gates)`.
//!
//! * One row per generic-format radial, in record order. Other messages take
//!   no row.
//! * Rows past the radial count, and rows of radials without the moment, hold
//!   the fill value.
//! * A row that is present holds its gate words and is padded to the row's end
//!   with what raw `0` becomes: raw `0` itself without a target grid.
//! * More gates than columns, or more radials than rows, is an error.
//!
//! Raw words are masked to their significant bits: 10 for 16-bit PHI, 11 for
//! 16-bit ZDR, all of them otherwise. With a target grid every word moves to
//! it as [`crate::backends::nexrad::grid`] describes, exactly or not at all.
//! Without one, all blocks must share one encoding of the output's width, so
//! that one scale and offset hold for the whole array.

pub mod inventory;
pub mod options;
pub mod record;
pub mod remap;
pub mod rows;
pub mod sweep;

pub use crate::backends::nexrad::demux::inventory::{
    record_moment_encoding, sweep_moment_encoding, MomentEncoding, MomentTable, RecordInventory,
};
pub use crate::backends::nexrad::demux::options::{
    DemuxOptions, DtypeRefusal, OutputWord, RawMoment, UnpairedTarget,
};
pub use crate::backends::nexrad::demux::record::decode_record_moment;
pub use crate::backends::nexrad::demux::sweep::decode_sweep_moment;
pub use crate::errors::{MomentSelector, TargetEncoding};
