//! Errors raised by the NEXRAD Level 2 byte-level decoder.
//!
//! Each variant carries enough context (offsets, expected versus actual sizes)
//! for a caller to surface a useful diagnostic without walking the file again.

use crate::text::{decimal, hex_byte, push_decimal, push_hex_byte, push_text};
use vstd::prelude::*;

verus! {

/// Errors that can surface during NEXRAD Level 2 byte-level decoding.
#[allow(inconsistent_fields)]
#[derive(Debug)]
pub enum NexradDecodeError {
    /// The reader ran out of bytes. Carries the offset where the read started
    /// and how many bytes were requested.
    UnexpectedEof { offset: usize, needed: usize, available: usize },
    /// A message type byte that the message table does not list.
    InvalidMessageType { code: u8 },
    /// A data block pointer of a generic-format radial referenced an offset
    /// outside the addressable range. `block` is the name of its slot.
    InvalidPointerOffset { block: &'static str, offset: u32, message_size: u32 },
    /// bzip2 decompression of the record at `offset` failed; `source` is the
    /// decompressor's own description.
    Decompression { offset: usize, source: String },
    /// A structure's bytes failed a self-consistency check.
    MalformedHeader { offset: usize, reason: &'static str },
    /// No Volume Coverage Pattern and no radial to derive one from.
    MissingCoveragePattern,
    /// The input is too short to hold an LDM record stream.
    UnsupportedRecordFormat,
}

/// The error for a read of `needed` bytes at `offset` of an input of `len`
/// bytes. Sizes beyond the machine's are reported as the largest there is.
pub open spec fn eof(offset: int, needed: int, len: int) -> NexradDecodeError {
    NexradDecodeError::UnexpectedEof {
        offset: offset as usize,
        needed: (if needed > usize::MAX {
            usize::MAX as int
        } else {
            needed
        }) as usize,
        available: (if len >= offset {
            len - offset
        } else {
            0
        }) as usize,
    }
}

/// The error of the first field, at index `k` or later, that does not fit when
/// fields of the given widths are read one after the other from `pos`.
pub open spec fn short_read(widths: Seq<int>, k: int, pos: int, len: int) -> NexradDecodeError
    decreases widths.len() - k,
{
    if k >= widths.len() {
        eof(pos, 0, len)
    } else if pos + widths[k] > len {
        eof(pos, widths[k], len)
    } else {
        short_read(widths, k + 1, pos + widths[k], len)
    }
}

/// The text of an error.
pub open spec fn error_text(e: NexradDecodeError) -> Seq<char> {
    match e {
        NexradDecodeError::UnexpectedEof { offset, needed, available } => {
            "unexpected EOF at offset "@ + decimal(offset as nat) + ": needed "@ + decimal(
                needed as nat,
            ) + " bytes, "@ + decimal(available as nat) + " available"@
        },
        NexradDecodeError::InvalidMessageType { code } => {
            "invalid NEXRAD message type byte: "@ + decimal(code as nat) + " (0x"@ + hex_byte(code)
                + ")"@
        },
        NexradDecodeError::InvalidPointerOffset { block, offset, message_size } => {
            "invalid MSG_31 data block pointer for "@ + block@ + ": offset="@ + decimal(
                offset as nat,
            ) + ", message_size="@ + decimal(message_size as nat)
        },
        NexradDecodeError::Decompression { offset, source } => {
            "bzip2 decompression failed at record offset "@ + decimal(offset as nat) + ": "@
                + source@
        },
        NexradDecodeError::MalformedHeader { offset, reason } => {
            "malformed header at offset "@ + decimal(offset as nat) + ": "@ + reason@
        },
        NexradDecodeError::MissingCoveragePattern => {
            "MSG_5 (Volume Coverage Pattern) missing from file"@
        },
        NexradDecodeError::UnsupportedRecordFormat => {
            "unsupported NEXRAD record format (LDM expected; CTM not yet supported)"@
        },
    }
}

impl NexradDecodeError {
    /// The text of the error.
    pub fn message(&self) -> (s: String)
        ensures
            s@ == error_text(*self),
    {
        let mut s = String::new();
        match self {
            NexradDecodeError::UnexpectedEof { offset, needed, available } => {
                push_text(&mut s, "unexpected EOF at offset ");
                push_decimal(&mut s, *offset as u64);
                push_text(&mut s, ": needed ");
                push_decimal(&mut s, *needed as u64);
                push_text(&mut s, " bytes, ");
                push_decimal(&mut s, *available as u64);
                push_text(&mut s, " available");
            },
            NexradDecodeError::InvalidMessageType { code } => {
                push_text(&mut s, "invalid NEXRAD message type byte: ");
                push_decimal(&mut s, *code as u64);
                push_text(&mut s, " (0x");
                push_hex_byte(&mut s, *code);
                push_text(&mut s, ")");
            },
            NexradDecodeError::InvalidPointerOffset { block, offset, message_size } => {
                push_text(&mut s, "invalid MSG_31 data block pointer for ");
                push_text(&mut s, block);
                push_text(&mut s, ": offset=");
                push_decimal(&mut s, *offset as u64);
                push_text(&mut s, ", message_size=");
                push_decimal(&mut s, *message_size as u64);
            },
            NexradDecodeError::Decompression { offset, source } => {
                push_text(&mut s, "bzip2 decompression failed at record offset ");
                push_decimal(&mut s, *offset as u64);
                push_text(&mut s, ": ");
                push_text(&mut s, source.as_str());
            },
            NexradDecodeError::MalformedHeader { offset, reason } => {
                push_text(&mut s, "malformed header at offset ");
                push_decimal(&mut s, *offset as u64);
                push_text(&mut s, ": ");
                push_text(&mut s, reason);
            },
            NexradDecodeError::MissingCoveragePattern => {
                push_text(&mut s, "MSG_5 (Volume Coverage Pattern) missing from file");
            },
            NexradDecodeError::UnsupportedRecordFormat => {
                push_text(
                    &mut s,
                    "unsupported NEXRAD record format (LDM expected; CTM not yet supported)",
                );
            },
        }
        assert(s@ =~= error_text(*self));
        s
    }
}

/// The bytes that the first `n` of several widths take together.
pub open spec fn width_of(widths: Seq<int>, n: int) -> int
    decreases n,
{
    if n <= 0 {
        0
    } else {
        width_of(widths, n - 1) + widths[n - 1]
    }
}

/// A short read names the first field that does not fit: it starts behind all
/// fields before it, which fit, as many bytes are needed as it is wide, and
/// fewer are left.
pub proof fn short_reads_name_the_first_field_that_does_not_fit(
    widths: Seq<int>,
    k: int,
    pos: int,
    len: int,
) -> (j: int)
    requires
        0 <= k <= widths.len(),
        0 <= pos <= len <= usize::MAX,
        forall|i: int| 0 <= i < widths.len() ==> 0 < #[trigger] widths[i] <= 0xFFFF,
        pos + width_of(widths, widths.len() as int) - width_of(widths, k) > len,
    ensures
        k <= j < widths.len(),
        ({
            let start = pos + width_of(widths, j) - width_of(widths, k);
            &&& start <= len < start + widths[j]
            &&& short_read(widths, k, pos, len) == (NexradDecodeError::UnexpectedEof {
                offset: start as usize,
                needed: widths[j] as usize,
                available: (len - start) as usize,
            })
        }),
    decreases widths.len() - k,
{
    assert(width_of(widths, k + 1) == width_of(widths, k) + widths[k]);
    if pos + widths[k] > len {
        k
    } else {
        short_reads_name_the_first_field_that_does_not_fit(widths, k + 1, pos + widths[k], len)
    }
}

} // verus!
