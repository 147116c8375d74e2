//! Backend system for reading different radar formats.

pub mod cfradial1;
pub mod common;
pub mod nexrad;

pub use crate::backends::cfradial1::CfRadial1Backend;
pub use crate::backends::nexrad::NexradBackend;

use crate::backends::cfradial1::sniff::{cdf_magic, hdf5_magic, is_cfradial1_head};
use crate::backends::common::sniff::{begins_with, FileProbe};
use crate::backends::nexrad::decode::record::ar2v;
use crate::backends::nexrad::sniff::{gzip_magic, is_nexrad_file, is_nexrad_head};
use crate::errors::RadishError;
use crate::text::{decimal, push_decimal, push_text, same_text};
use crate::types::VolumeData;
use vstd::prelude::*;

verus! {

/// A radar file format.
pub trait RadarBackend: Send + Sync {
    /// The backend's name.
    spec fn label(&self) -> Seq<char>;

    /// What the backend reads.
    spec fn summary(&self) -> Seq<char>;

    /// The file extensions of the format.
    spec fn extension_list(&self) -> Seq<Seq<char>>;

    /// The file looks like one of the format.
    spec fn knows_file(&self, file: FileProbe) -> bool;

    /// A buffer that begins like this looks like one of the format.
    spec fn knows_head(&self, head: Seq<u8>) -> bool;

    /// `r` is a result of decoding this buffer.
    spec fn reads_bytes(&self, data: Seq<u8>, r: Result<VolumeData, RadishError>) -> bool;

    /// Backend name (for example `"nexrad_level2"`).
    fn name(&self) -> (s: &'static str)
        ensures
            s@ == self.label(),
    ;

    /// Backend description.
    fn description(&self) -> (s: &'static str)
        ensures
            s@ == self.summary(),
    ;

    /// Supported file extensions.
    fn supported_extensions(&self) -> (v: Vec<&'static str>)
        ensures
            texts(v@) == self.extension_list(),
    ;

    /// Whether a file looks like one of the format.
    fn can_read(&self, file: &FileProbe) -> (b: bool)
        ensures
            b == self.knows_file(*file),
    ;

    /// Whether a buffer, by its first bytes, looks like one of the format.
    fn can_read_bytes(&self, head: &[u8]) -> (b: bool)
        ensures
            b == self.knows_head(head@),
    ;

    /// Decode a volume from a buffer in memory.
    fn read_bytes_volume(&self, data: Vec<u8>) -> (r: Result<VolumeData, RadishError>)
        ensures
            self.reads_bytes(data@, r),
    ;
}

/// The contents of texts.
pub open spec fn texts(v: Seq<&'static str>) -> Seq<Seq<char>> {
    v.map_values(|s: &'static str| s@)
}

/// Whether the file has one of the extensions, letter for letter.
pub open spec fn has_listed_extension(file: FileProbe, extensions: Seq<Seq<char>>) -> bool {
    file.extension is Some && exists|i: int|
        0 <= i < extensions.len() && #[trigger] extensions[i] == file.extension->0@
}

/// Whether the file has one of the extensions, letter for letter.
pub fn extension_is_listed(file: &FileProbe, extensions: &[&'static str]) -> (b: bool)
    ensures
        b == has_listed_extension(*file, texts(extensions@)),
{
    match &file.extension {
        None => false,
        Some(ext) => {
            let mut i: usize = 0;
            while i < extensions.len()
                invariant
                    i <= extensions@.len(),
                    file.extension is Some,
                    file.extension->0@ == ext@,
                    forall|j: int|
                        0 <= j < i ==> #[trigger] texts(extensions@)[j] != ext@,
                decreases extensions@.len() - i,
            {
                if same_text(extensions[i], ext.as_str()) {
                    assert(texts(extensions@)[i as int] == ext@);
                    return true;
                }
                i += 1;
            }
            false
        },
    }
}

/// What a format that cannot be decoded from memory answers.
pub open spec fn bytes_unsupported(r: Result<VolumeData, RadishError>, label: Seq<char>) -> bool {
    match r {
        Err(RadishError::Unsupported(text)) => text@ == label
            + ": in-memory bytes input not supported"@,
        _ => false,
    }
}

/// The answer of a format that cannot be decoded from memory.
pub fn refuse_bytes(name: &str) -> (r: Result<VolumeData, RadishError>)
    ensures
        bytes_unsupported(r, name@),
{
    let mut text = name.to_owned();
    push_text(&mut text, ": in-memory bytes input not supported");
    Err(RadishError::Unsupported(text))
}

/// One of the backends.
pub enum Backend {
    CfRadial1(CfRadial1Backend),
    Nexrad(NexradBackend),
}

impl RadarBackend for Backend {
    open spec fn label(&self) -> Seq<char> {
        match self {
            Backend::CfRadial1(b) => b.label(),
            Backend::Nexrad(b) => b.label(),
        }
    }

    open spec fn summary(&self) -> Seq<char> {
        match self {
            Backend::CfRadial1(b) => b.summary(),
            Backend::Nexrad(b) => b.summary(),
        }
    }

    open spec fn extension_list(&self) -> Seq<Seq<char>> {
        match self {
            Backend::CfRadial1(b) => b.extension_list(),
            Backend::Nexrad(b) => b.extension_list(),
        }
    }

    open spec fn knows_file(&self, file: FileProbe) -> bool {
        match self {
            Backend::CfRadial1(b) => b.knows_file(file),
            Backend::Nexrad(b) => b.knows_file(file),
        }
    }

    open spec fn knows_head(&self, head: Seq<u8>) -> bool {
        match self {
            Backend::CfRadial1(b) => b.knows_head(head),
            Backend::Nexrad(b) => b.knows_head(head),
        }
    }

    open spec fn reads_bytes(&self, data: Seq<u8>, r: Result<VolumeData, RadishError>) -> bool {
        match self {
            Backend::CfRadial1(b) => b.reads_bytes(data, r),
            Backend::Nexrad(b) => b.reads_bytes(data, r),
        }
    }

    fn name(&self) -> (s: &'static str) {
        match self {
            Backend::CfRadial1(b) => b.name(),
            Backend::Nexrad(b) => b.name(),
        }
    }

    fn description(&self) -> (s: &'static str) {
        match self {
            Backend::CfRadial1(b) => b.description(),
            Backend::Nexrad(b) => b.description(),
        }
    }

    fn supported_extensions(&self) -> (v: Vec<&'static str>) {
        match self {
            Backend::CfRadial1(b) => b.supported_extensions(),
            Backend::Nexrad(b) => b.supported_extensions(),
        }
    }

    fn can_read(&self, file: &FileProbe) -> (b: bool) {
        match self {
            Backend::CfRadial1(b) => b.can_read(file),
            Backend::Nexrad(b) => b.can_read(file),
        }
    }

    fn can_read_bytes(&self, head: &[u8]) -> (b: bool) {
        match self {
            Backend::CfRadial1(b) => b.can_read_bytes(head),
            Backend::Nexrad(b) => b.can_read_bytes(head),
        }
    }

    fn read_bytes_volume(&self, data: Vec<u8>) -> (r: Result<VolumeData, RadishError>) {
        match self {
            Backend::CfRadial1(b) => b.read_bytes_volume(data),
            Backend::Nexrad(b) => b.read_bytes_volume(data),
        }
    }
}

/// The backends that the library holds, CfRadial1 and NEXRAD Level 2, in the
/// order in which they are tried. Files of other formats find no backend.
pub open spec fn backend_order() -> Seq<Backend> {
    seq![Backend::CfRadial1(CfRadial1Backend), Backend::Nexrad(NexradBackend)]
}

/// The backends that the library holds: CfRadial1 and NEXRAD Level 2.
pub fn available_backends() -> (v: Vec<Backend>)
    ensures
        v@ == backend_order(),
{
    let mut v: Vec<Backend> = Vec::new();
    v.push(Backend::CfRadial1(CfRadial1Backend::new()));
    v.push(Backend::Nexrad(NexradBackend::new()));
    assert(v@ =~= backend_order());
    v
}

/// `b` is the first backend, in order, that `knows` holds of.
pub open spec fn is_first_backend(b: Backend, knows: spec_fn(Backend) -> bool) -> bool {
    exists|i: int|
        {
            &&& 0 <= i < backend_order().len()
            &&& b == #[trigger] backend_order()[i]
            &&& knows(b)
            &&& forall|j: int| 0 <= j < i ==> !knows(#[trigger] backend_order()[j])
        }
}

/// No backend has `knows`.
pub open spec fn no_backend(knows: spec_fn(Backend) -> bool) -> bool {
    forall|i: int| 0 <= i < backend_order().len() ==> !knows(#[trigger] backend_order()[i])
}

/// The first backend that recognises a file. `path` names the file in the
/// error.
pub fn auto_backend(path: &str, file: &FileProbe) -> (r: Result<Backend, RadishError>)
    ensures
        match r {
            Ok(b) => is_first_backend(b, |b: Backend| b.knows_file(*file)),
            Err(e) => {
                &&& no_backend(|b: Backend| b.knows_file(*file))
                &&& e matches RadishError::InvalidFormat(text) && text@
                    == "No backend found for file: "@ + path@
            },
        },
{
    let ghost knows = |b: Backend| b.knows_file(*file);
    let backends = available_backends();
    for backend in it: backends.into_iter()
        invariant
            it.seq() == backend_order(),
            knows == (|b: Backend| b.knows_file(*file)),
            forall|j: int| 0 <= j < it.index() ==> !knows(#[trigger] backend_order()[j]),
    {
        assert(backend == backend_order()[it.index() as int]);
        if backend.can_read(file) {
            assert(knows(backend));
            return Ok(backend);
        }
    }
    let mut text = "No backend found for file: ".to_owned();
    push_text(&mut text, path);
    Err(RadishError::InvalidFormat(text))
}

/// The first backend that recognises a buffer by its first bytes.
pub fn auto_backend_for_bytes(head: &[u8]) -> (r: Result<Backend, RadishError>)
    ensures
        match r {
            Ok(b) => is_first_backend(b, |b: Backend| b.knows_head(head@)),
            Err(e) => {
                let shown = if head@.len() < 8 {
                    head@.len()
                } else {
                    8
                };
                &&& no_backend(|b: Backend| b.knows_head(head@))
                &&& e matches RadishError::InvalidFormat(text) && text@
                    == "No backend found for in-memory buffer (first "@ + decimal(shown)
                    + " bytes)"@
            },
        },
{
    let ghost knows = |b: Backend| b.knows_head(head@);
    let backends = available_backends();
    for backend in it: backends.into_iter()
        invariant
            it.seq() == backend_order(),
            knows == (|b: Backend| b.knows_head(head@)),
            forall|j: int| 0 <= j < it.index() ==> !knows(#[trigger] backend_order()[j]),
    {
        assert(backend == backend_order()[it.index() as int]);
        if backend.can_read_bytes(head) {
            assert(knows(backend));
            return Ok(backend);
        }
    }
    let shown: usize = if head.len() < 8 {
        head.len()
    } else {
        8
    };
    let mut text = "No backend found for in-memory buffer (first ".to_owned();
    push_decimal(&mut text, shown as u64);
    push_text(&mut text, " bytes)");
    Err(RadishError::InvalidFormat(text))
}

/// The first bytes of a buffer tell the formats apart: no two backends
/// recognise the same ones, so their order does not matter.
pub proof fn heads_tell_backends_apart(head: Seq<u8>, i: int, j: int)
    requires
        0 <= i < backend_order().len(),
        0 <= j < backend_order().len(),
        backend_order()[i].knows_head(head),
        backend_order()[j].knows_head(head),
    ensures
        i == j,
{
    assert(ar2v()[0] == 0x41);
    assert(gzip_magic()[0] == 0x1F);
    assert(hdf5_magic()[0] == 0x89);
    assert(cdf_magic(1)[0] == 0x43);
    assert(cdf_magic(2)[0] == 0x43);
    assert(is_nexrad_head(head) ==> head[0] == 0x41 || head[0] == 0x1F) by {
        if begins_with(head, ar2v()) {
            assert(head[0] == ar2v()[0]);
        }
        if begins_with(head, gzip_magic()) {
            assert(head[0] == gzip_magic()[0]);
        }
    }
    assert(is_cfradial1_head(head) ==> head[0] == 0x89 || head[0] == 0x43) by {
        if begins_with(head, hdf5_magic()) {
            assert(head[0] == hdf5_magic()[0]);
        }
        if begins_with(head, cdf_magic(1)) {
            assert(head[0] == cdf_magic(1)[0]);
        }
        if begins_with(head, cdf_magic(2)) {
            assert(head[0] == cdf_magic(2)[0]);
        }
    }
}

/// A file with a netCDF extension finds the CfRadial1 backend, whatever else speaks
/// for it; any other that looks like an archive volume finds the NEXRAD one, and
/// the rest find none.
pub proof fn netcdf_extensions_come_first(file: FileProbe, b: Backend)
    ensures
        ({
            let knows = |b: Backend| b.knows_file(file);
            let netcdf = CfRadial1Backend.knows_file(file);
            &&& netcdf && is_first_backend(b, knows) ==> b is CfRadial1
            &&& !netcdf && is_first_backend(b, knows) ==> b is Nexrad && is_nexrad_file(file)
            &&& no_backend(knows) <==> !netcdf && !is_nexrad_file(file)
        }),
{
    let knows = |b: Backend| b.knows_file(file);
    let order = backend_order();
    assert(order[0] == Backend::CfRadial1(CfRadial1Backend));
    assert(order[1] == Backend::Nexrad(NexradBackend));
    assert(knows(order[0]) == CfRadial1Backend.knows_file(file));
    assert(knows(order[1]) == is_nexrad_file(file));
}

/// A buffer finds the backend whose signature it begins with.
pub proof fn buffers_go_by_their_signatures(head: Seq<u8>, b: Backend)
    ensures
        ({
            let knows = |b: Backend| b.knows_head(head);
            &&& is_first_backend(b, knows) && b is CfRadial1 ==> is_cfradial1_head(head)
            &&& is_first_backend(b, knows) && b is Nexrad ==> is_nexrad_head(head)
            &&& no_backend(knows) <==> !is_cfradial1_head(head) && !is_nexrad_head(head)
        }),
{
    let knows = |b: Backend| b.knows_head(head);
    let order = backend_order();
    assert(order[0] == Backend::CfRadial1(CfRadial1Backend));
    assert(order[1] == Backend::Nexrad(NexradBackend));
    assert(knows(order[0]) == is_cfradial1_head(head));
    assert(knows(order[1]) == is_nexrad_head(head));
}

} // verus!
