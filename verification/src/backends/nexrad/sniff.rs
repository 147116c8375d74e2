//! Format detection for NEXRAD Level 2 (Archive II / AR2V) files.

use crate::backends::common::sniff::{
    begins_with, looks_like, looks_like_bytes, FileProbe, NamePattern, SniffConfig,
};
use crate::backends::nexrad::decode::record::ar2v;
use crate::text::all_digits;
use vstd::prelude::*;
use vstd::string::*;

verus! {

/// Length of a canonical name: site, date, `_` and time.
pub const NEXRAD_NAME_CORE_LEN: usize = 19;

/// Length of a canonical name with a `_V##` suffix.
pub const NEXRAD_NAME_WITH_VOLUME_LEN: usize = 23;

/// An ASCII capital.
pub open spec fn is_capital(c: char) -> bool {
    'A' <= c <= 'Z'
}

/// An ASCII digit.
pub open spec fn is_digit(c: char) -> bool {
    '0' <= c <= '9'
}

/// What the `i`-th character of a canonical name `AAAAYYYYMMDD_HHMMSS_V##` may
/// be.
pub open spec fn canonical_char(i: int, c: char) -> bool {
    if i < 4 {
        is_capital(c)
    } else if i == 12 || i == 19 {
        c == '_'
    } else if i == 20 {
        c == 'V'
    } else {
        is_digit(c)
    }
}

/// The canonical archive naming: `AAAAYYYYMMDD_HHMMSS`, with or without `_V##`.
pub open spec fn is_canonical_name(name: Seq<char>) -> bool {
    &&& name.len() == NEXRAD_NAME_CORE_LEN || name.len() == NEXRAD_NAME_WITH_VOLUME_LEN
    &&& forall|i: int| 0 <= i < name.len() ==> canonical_char(i, #[trigger] name[i])
}

fn is_canonical_char(i: usize, c: char) -> (r: bool)
    ensures
        r == canonical_char(i as int, c),
{
    if i < 4 {
        'A' <= c && c <= 'Z'
    } else if i == 12 || i == 19 {
        c == '_'
    } else if i == 20 {
        c == 'V'
    } else {
        '0' <= c && c <= '9'
    }
}

/// Whether a file name follows the canonical naming (for example
/// `KLOT20260310_231412_V06`).
pub fn matches_nexrad_filename(name: &str) -> (r: bool)
    ensures
        r == is_canonical_name(name@),
{
    let n: usize = name.unicode_len();
    if n != NEXRAD_NAME_CORE_LEN && n != NEXRAD_NAME_WITH_VOLUME_LEN {
        return false;
    }
    let mut i: usize = 0;
    while i < n
        invariant
            i <= n,
            n == name@.len(),
            forall|j: int| 0 <= j < i ==> canonical_char(j, #[trigger] name@[j]),
        decreases n - i,
    {
        if !is_canonical_char(i, name.get_char(i)) {
            assert(!canonical_char(i as int, name@[i as int]));
            return false;
        }
        i += 1;
    }
    true
}

/// The site identifier of a canonical file name; `None` for any other name.
pub fn icao_from_filename<'a>(name: &'a str) -> (r: Option<&'a str>)
    ensures
        match r {
            Some(icao) => is_canonical_name(name@) && icao@ == name@.take(4),
            None => !is_canonical_name(name@),
        },
{
    if matches_nexrad_filename(name) {
        let icao = name.substring_char(0, 4);
        assert(icao@ =~= name@.take(4));
        Some(icao)
    } else {
        None
    }
}

/// The canonical archive naming as a file name pattern.
#[derive(Debug, Clone, Copy)]
pub struct NexradName;

impl NamePattern for NexradName {
    open spec fn accepts(&self, name: Seq<char>) -> bool {
        is_canonical_name(name)
    }

    fn matches(&self, name: &str) -> (b: bool) {
        matches_nexrad_filename(name)
    }
}

/// The gzip magic, in which older archive volumes are wrapped.
pub open spec fn gzip_magic() -> Seq<u8> {
    seq![0x1Fu8, 0x8B]
}

/// The bytes begin as an archive volume, plain or gzip-wrapped.
pub open spec fn is_nexrad_head(head: Seq<u8>) -> bool {
    begins_with(head, ar2v()) || begins_with(head, gzip_magic())
}

/// The extension of an archive file, without regard to ASCII case.
pub open spec fn is_nexrad_extension(ext: Seq<char>) -> bool {
    let e = crate::backends::common::sniff::ascii_lowered(ext);
    e == "ar2"@ || e == "ar2v"@
}

/// The file looks like an archive volume by its extension, name or head.
pub open spec fn is_nexrad_file(file: FileProbe) -> bool {
    ||| file.extension is Some && is_nexrad_extension(file.extension->0@)
    ||| file.name is Some && is_canonical_name(file.name->0@)
    ||| file.head is Some && is_nexrad_head(file.head->0@)
}

proof fn lemma_lowered_extensions()
    ensures
        crate::backends::common::sniff::ascii_lowered("ar2"@) == "ar2"@,
        crate::backends::common::sniff::ascii_lowered("ar2v"@) == "ar2v"@,
{
    reveal_strlit("ar2");
    reveal_strlit("ar2v");
    assert(crate::backends::common::sniff::ascii_lowered("ar2"@) =~= "ar2"@);
    assert(crate::backends::common::sniff::ascii_lowered("ar2v"@) =~= "ar2v"@);
}

/// Whether a file looks like an archive volume by its extension, name or head.
pub fn looks_like_nexrad(file: &FileProbe) -> (r: bool)
    ensures
        r == is_nexrad_file(*file),
{
    let magic: [u8; 4] = [0x41, 0x52, 0x32, 0x56];
    let gzip: [u8; 2] = [0x1F, 0x8B];
    let extensions = ["ar2", "ar2v"];
    let prefixes = [magic.as_slice(), gzip.as_slice()];
    assert(magic@ =~= ar2v());
    assert(gzip@ =~= gzip_magic());
    let cfg = SniffConfig {
        extensions: extensions.as_slice(),
        magic_prefixes: prefixes.as_slice(),
        filename_pattern: NexradName,
    };
    proof {
        lemma_lowered_extensions();
        assert(cfg.extensions@[0]@ == "ar2"@ && cfg.extensions@[1]@ == "ar2v"@);
        assert(cfg.magic_prefixes@[0]@ == ar2v() && cfg.magic_prefixes@[1]@ == gzip_magic());
    }
    looks_like(file, &cfg)
}

/// Whether a buffer begins as an archive volume, plain or gzip-wrapped.
pub fn looks_like_ar2v_bytes(head: &[u8]) -> (r: bool)
    ensures
        r == is_nexrad_head(head@),
{
    let magic: [u8; 4] = [0x41, 0x52, 0x32, 0x56];
    let gzip: [u8; 2] = [0x1F, 0x8B];
    let extensions: [&str; 0] = [];
    let prefixes = [magic.as_slice(), gzip.as_slice()];
    assert(magic@ =~= ar2v());
    assert(gzip@ =~= gzip_magic());
    let cfg = SniffConfig {
        extensions: extensions.as_slice(),
        magic_prefixes: prefixes.as_slice(),
        filename_pattern: NexradName,
    };
    proof {
        assert(cfg.magic_prefixes@[0]@ == ar2v() && cfg.magic_prefixes@[1]@ == gzip_magic());
    }
    looks_like_bytes(head, &cfg)
}

/// Every character is a capital.
pub open spec fn all_capitals(s: Seq<char>) -> bool {
    forall|i: int| 0 <= i < s.len() ==> 'A' <= #[trigger] s[i] <= 'Z'
}

/// A canonical name is put together from a site of four capitals, a date of eight
/// digits, `_` and a time of six digits; `_V` and two digits may follow.
pub proof fn canonical_names_are_put_together(
    site: Seq<char>,
    date: Seq<char>,
    time: Seq<char>,
    volume: Seq<char>,
)
    requires
        site.len() == 4 && all_capitals(site),
        date.len() == 8 && all_digits(date),
        time.len() == 6 && all_digits(time),
        volume.len() == 2 && all_digits(volume),
    ensures
        is_canonical_name(site + date + "_"@ + time),
        is_canonical_name(site + date + "_"@ + time + "_V"@ + volume),
{
    reveal_strlit("_");
    reveal_strlit("_V");
    let core = site + date + "_"@ + time;
    assert forall|i: int| 0 <= i < core.len() implies canonical_char(i, #[trigger] core[i]) by {
        lemma_core_char(site, date, time, i);
    }
    let whole = core + "_V"@ + volume;
    assert forall|i: int| 0 <= i < whole.len() implies canonical_char(i, #[trigger] whole[i]) by {
        if i < 19 {
            lemma_core_char(site, date, time, i);
            assert(whole[i] == core[i]);
        } else if i < 21 {
            assert(whole[i] == "_V"@[i - 19]);
        } else {
            assert(whole[i] == volume[i - 21]);
        }
    }
}

proof fn lemma_core_char(site: Seq<char>, date: Seq<char>, time: Seq<char>, i: int)
    requires
        site.len() == 4 && all_capitals(site),
        date.len() == 8 && all_digits(date),
        time.len() == 6 && all_digits(time),
        0 <= i < 19,
    ensures
        (site + date + "_"@ + time).len() == 19,
        canonical_char(i, (site + date + "_"@ + time)[i]),
{
    reveal_strlit("_");
    let core = site + date + "_"@ + time;
    if i < 4 {
        assert(core[i] == site[i]);
    } else if i < 12 {
        assert(core[i] == date[i - 4]);
    } else if i == 12 {
        assert(core[i] == "_"@[0]);
    } else {
        assert(core[i] == time[i - 13]);
    }
}

/// A canonical name comes apart into its site, date and time, and the volume's
/// number where it has one.
pub proof fn canonical_names_come_apart(name: Seq<char>)
    requires
        is_canonical_name(name),
    ensures
        all_capitals(name.take(4)),
        all_digits(name.subrange(4, 12)),
        name[12] == '_',
        all_digits(name.subrange(13, 19)),
        name.len() == 19 || (name.len() == 23 && name[19] == '_' && name[20] == 'V' && all_digits(
            name.subrange(21, 23),
        )),
{
    assert(forall|i: int| 0 <= i < name.len() ==> canonical_char(i, #[trigger] name[i]));
    assert(canonical_char(12, name[12]));
}

/// A head is taken for an archive volume if it begins with `AR2V`, or with the two
/// bytes of gzip.
pub proof fn archive_heads_begin_with_ar2v_or_gzip(head: Seq<u8>)
    ensures
        is_nexrad_head(head) <==> {
            ||| head.len() >= 4 && head[0] == 'A' as u8 && head[1] == 'R' as u8 && head[2]
                == '2' as u8 && head[3] == 'V' as u8
            ||| head.len() >= 2 && head[0] == 31 && head[1] == 139
        },
{
    let (a, z) = (ar2v(), gzip_magic());
    assert(a[0] == 0x41 && a[1] == 0x52 && a[2] == 0x32 && a[3] == 0x56);
    assert(z[0] == 0x1F && z[1] == 0x8B);
    if head.len() >= 4 {
        let t = head.take(4);
        assert(t[0] == head[0] && t[1] == head[1] && t[2] == head[2] && t[3] == head[3]);
        if head[0] == 0x41 && head[1] == 0x52 && head[2] == 0x32 && head[3] == 0x56 {
            assert(t =~= a);
        }
    }
    if head.len() >= 2 {
        let t = head.take(2);
        assert(t[0] == head[0] && t[1] == head[1]);
        if head[0] == 31 && head[1] == 139 {
            assert(t =~= z);
        }
    }
}

/// An extension is that of an archive file if it is `ar2` or `ar2v` in any mixture
/// of small letters and capitals.
pub proof fn archive_extensions_are_ar2_and_ar2v(ext: Seq<char>)
    ensures
        is_nexrad_extension(ext) <==> {
            &&& ext.len() == 3 || (ext.len() == 4 && (ext[3] == 'v' || ext[3] == 'V'))
            &&& ext[0] == 'a' || ext[0] == 'A'
            &&& ext[1] == 'r' || ext[1] == 'R'
            &&& ext[2] == '2'
        },
{
    reveal_strlit("ar2");
    reveal_strlit("ar2v");
    let e = crate::backends::common::sniff::ascii_lowered(ext);
    assert(e.len() == ext.len());
    assert("ar2"@.len() == 3 && "ar2v"@.len() == 4);
    if ext.len() == 3 || ext.len() == 4 {
        assert(e[0] == crate::backends::common::sniff::ascii_lower(ext[0]));
        assert(e[1] == crate::backends::common::sniff::ascii_lower(ext[1]));
        assert(e[2] == crate::backends::common::sniff::ascii_lower(ext[2]));
        if ext.len() == 4 {
            assert(e[3] == crate::backends::common::sniff::ascii_lower(ext[3]));
        }
        if e.len() == 3 && e[0] == 'a' && e[1] == 'r' && e[2] == '2' {
            assert(e =~= "ar2"@);
        }
        if e.len() == 4 && e[0] == 'a' && e[1] == 'r' && e[2] == '2' && e[3] == 'v' {
            assert(e =~= "ar2v"@);
        }
    }
}

/// Any one signal is enough for a file to be taken for an archive volume, and
/// without any it is not.
pub proof fn any_one_signal_is_enough(file: FileProbe)
    ensures
        file.extension matches Some(e) ==> is_nexrad_extension(e@) ==> is_nexrad_file(file),
        file.name matches Some(n) ==> is_canonical_name(n@) ==> is_nexrad_file(file),
        file.head matches Some(h) ==> is_nexrad_head(h@) ==> is_nexrad_file(file),
        is_nexrad_file(file) ==> {
            ||| file.extension matches Some(e) && is_nexrad_extension(e@)
            ||| file.name matches Some(n) && is_canonical_name(n@)
            ||| file.head matches Some(h) && is_nexrad_head(h@)
        },
{
}

} // verus!
