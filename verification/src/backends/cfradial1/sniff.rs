//! Format detection for CfRadial1 NetCDF files.
//!
//! The modern encoding is HDF5-backed; older files are classic netCDF. Whether
//! the file holds CfRadial data shows only when it is opened.

use crate::backends::common::sniff::{begins_with, starts_with};
use vstd::prelude::*;

verus! {

/// The HDF5 signature.
pub open spec fn hdf5_magic() -> Seq<u8> {
    seq![0x89u8, 0x48, 0x44, 0x46, 0x0D, 0x0A, 0x1A, 0x0A]
}

/// Classic netCDF signature: `CDF` and a version byte.
pub open spec fn cdf_magic(version: u8) -> Seq<u8> {
    seq![0x43u8, 0x44, 0x46, version]
}

/// The bytes begin as HDF5 or as classic netCDF of version 1 or 2.
pub open spec fn is_cfradial1_head(head: Seq<u8>) -> bool {
    ||| begins_with(head, hdf5_magic())
    ||| begins_with(head, cdf_magic(1))
    ||| begins_with(head, cdf_magic(2))
}

/// Whether a buffer begins as HDF5 or as classic netCDF.
pub fn looks_like_cfradial1(head: &[u8]) -> (r: bool)
    ensures
        r == is_cfradial1_head(head@),
{
    let hdf5: [u8; 8] = [0x89, 0x48, 0x44, 0x46, 0x0D, 0x0A, 0x1A, 0x0A];
    let cdf1: [u8; 4] = [0x43, 0x44, 0x46, 0x01];
    let cdf2: [u8; 4] = [0x43, 0x44, 0x46, 0x02];
    assert(hdf5@ =~= hdf5_magic());
    assert(cdf1@ =~= cdf_magic(1));
    assert(cdf2@ =~= cdf_magic(2));
    starts_with(head, hdf5.as_slice()) || starts_with(head, cdf1.as_slice()) || starts_with(
        head,
        cdf2.as_slice(),
    )
}

/// A head is taken for netCDF if it begins with the HDF5 signature, a byte of 137,
/// `HDF` and the line endings, or with `CDF` and a version of 1 or 2.
pub proof fn heads_are_told_by_their_signatures(head: Seq<u8>)
    ensures
        is_cfradial1_head(head) <==> {
            ||| head.len() >= 8 && head[0] == 137 && head[1] == 'H' as u8 && head[2] == 'D' as u8
                && head[3] == 'F' as u8 && head[4] == 13 && head[5] == 10 && head[6] == 26
                && head[7] == 10
            ||| head.len() >= 4 && head[0] == 'C' as u8 && head[1] == 'D' as u8 && head[2]
                == 'F' as u8 && (head[3] == 1 || head[3] == 2)
        },
{
    let h = hdf5_magic();
    assert(h[0] == 0x89 && h[1] == 0x48 && h[2] == 0x44 && h[3] == 0x46 && h[4] == 0x0D && h[5]
        == 0x0A && h[6] == 0x1A && h[7] == 0x0A);
    if head.len() >= 8 {
        let t = head.take(8);
        assert(t[0] == head[0] && t[1] == head[1] && t[2] == head[2] && t[3] == head[3] && t[4]
            == head[4] && t[5] == head[5] && t[6] == head[6] && t[7] == head[7]);
        if head[0] == 137 && head[1] == 72 && head[2] == 68 && head[3] == 70 && head[4] == 13
            && head[5] == 10 && head[6] == 26 && head[7] == 10 {
            assert(t =~= h);
        }
    }
    if head.len() >= 4 {
        let t = head.take(4);
        let (a, b) = (cdf_magic(1), cdf_magic(2));
        assert(t[0] == head[0] && t[1] == head[1] && t[2] == head[2] && t[3] == head[3]);
        assert(a[0] == 0x43 && a[1] == 0x44 && a[2] == 0x46 && a[3] == 1);
        assert(b[0] == 0x43 && b[1] == 0x44 && b[2] == 0x46 && b[3] == 2);
        if head[0] == 0x43 && head[1] == 0x44 && head[2] == 0x46 {
            if head[3] == 1 {
                assert(t =~= a);
            }
            if head[3] == 2 {
                assert(t =~= b);
            }
        }
    }
}

} // verus!
