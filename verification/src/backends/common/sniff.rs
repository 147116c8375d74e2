//! Format detection shared by the backends.
//!
//! Three signals speak for a format: a known file extension, a known magic
//! prefix at the head of the file, and a canonical file name. Any one is
//! enough. A buffer in memory has its magic prefix alone.

use vstd::prelude::*;
use vstd::string::*;

verus! {

/// What is known of a file before it is opened as a radar volume.
#[derive(Debug, Clone, PartialEq, Eq)]
pub struct FileProbe {
    /// File name, if it is text.
    pub name: Option<String>,
    /// Extension without the dot, if there is one and it is text.
    pub extension: Option<String>,
    /// First bytes of the file, if it could be read.
    pub head: Option<Vec<u8>>,
}

/// How many bytes to read from the head of a file.
pub const MAGIC_PEEK_BYTES: usize = 16;

/// A test on file names.
pub trait NamePattern {
    /// The name is one that the pattern is for.
    spec fn accepts(&self, name: Seq<char>) -> bool;

    /// Whether the name is one that the pattern is for.
    fn matches(&self, name: &str) -> (b: bool)
        ensures
            b == self.accepts(name@),
    ;
}

/// The pattern that accepts no name.
#[derive(Debug, Clone, Copy)]
pub struct NoPattern;

impl NamePattern for NoPattern {
    open spec fn accepts(&self, name: Seq<char>) -> bool {
        false
    }

    fn matches(&self, name: &str) -> (b: bool) {
        false
    }
}

/// The signals of one backend.
#[derive(Debug, Clone, Copy)]
pub struct SniffConfig<'a, P> {
    /// Extensions without the dot; compared without regard to ASCII case.
    pub extensions: &'a [&'a str],
    /// Magic prefixes, of any length.
    pub magic_prefixes: &'a [&'a [u8]],
    pub filename_pattern: P,
}

/// A character with ASCII capitals made small.
pub open spec fn ascii_lower(c: char) -> char {
    if 'A' <= c <= 'Z' {
        (c as u32 + 32) as char
    } else {
        c
    }
}

/// A text with ASCII capitals made small.
pub open spec fn ascii_lowered(s: Seq<char>) -> Seq<char> {
    s.map_values(|c: char| ascii_lower(c))
}

fn to_ascii_lower(c: char) -> (r: char)
    ensures
        r == ascii_lower(c),
{
    if 'A' <= c && c <= 'Z' {
        ((c as u8) + 32) as char
    } else {
        c
    }
}

/// Whether two texts are the same without regard to ASCII case.
pub fn same_ignoring_ascii_case(a: &str, b: &str) -> (r: bool)
    ensures
        r == (ascii_lowered(a@) == ascii_lowered(b@)),
{
    let n: usize = a.unicode_len();
    if n != b.unicode_len() {
        assert(ascii_lowered(a@).len() != ascii_lowered(b@).len());
        return false;
    }
    let mut i: usize = 0;
    while i < n
        invariant
            i <= n,
            n == a@.len(),
            n == b@.len(),
            forall|j: int| 0 <= j < i ==> ascii_lower(a@[j]) == ascii_lower(b@[j]),
        decreases n - i,
    {
        if to_ascii_lower(a.get_char(i)) != to_ascii_lower(b.get_char(i)) {
            assert(ascii_lowered(a@)[i as int] != ascii_lowered(b@)[i as int]);
            return false;
        }
        i += 1;
    }
    assert(ascii_lowered(a@) =~= ascii_lowered(b@));
    true
}

/// `s` begins with `prefix`.
pub open spec fn begins_with(s: Seq<u8>, prefix: Seq<u8>) -> bool {
    prefix.len() <= s.len() && s.take(prefix.len() as int) == prefix
}

/// Whether `s` begins with `prefix`.
pub fn starts_with(s: &[u8], prefix: &[u8]) -> (r: bool)
    ensures
        r == begins_with(s@, prefix@),
{
    let n: usize = prefix.len();
    if n > s.len() {
        return false;
    }
    let mut i: usize = 0;
    while i < n
        invariant
            i <= n,
            n == prefix@.len(),
            n <= s@.len(),
            forall|j: int| 0 <= j < i ==> s@[j] == prefix@[j],
        decreases n - i,
    {
        if s[i] != prefix[i] {
            assert(s@.take(n as int)[i as int] != prefix@[i as int]);
            return false;
        }
        i += 1;
    }
    assert(s@.take(n as int) =~= prefix@);
    true
}

impl<'a, P: NamePattern> SniffConfig<'a, P> {
    /// The extension is one of those listed.
    pub open spec fn knows_extension(&self, ext: Seq<char>) -> bool {
        exists|i: int|
            0 <= i < self.extensions@.len() && ascii_lowered((#[trigger] self.extensions@[i])@)
                == ascii_lowered(ext)
    }

    /// The bytes begin with one of the magic prefixes.
    pub open spec fn knows_magic(&self, head: Seq<u8>) -> bool {
        exists|i: int|
            0 <= i < self.magic_prefixes@.len() && begins_with(
                head,
                (#[trigger] self.magic_prefixes@[i])@,
            )
    }

    /// Some signal speaks for the format.
    pub open spec fn recognises(&self, file: FileProbe) -> bool {
        ||| file.extension is Some && self.knows_extension(file.extension->0@)
        ||| file.name is Some && self.filename_pattern.accepts(file.name->0@)
        ||| file.head is Some && self.knows_magic(file.head->0@)
    }
}

fn has_extension(ext: &str, extensions: &[&str]) -> (r: bool)
    ensures
        r == exists|i: int|
            0 <= i < extensions@.len() && ascii_lowered((#[trigger] extensions@[i])@)
                == ascii_lowered(ext@),
{
    let mut i: usize = 0;
    while i < extensions.len()
        invariant
            i <= extensions@.len(),
            forall|j: int|
                0 <= j < i ==> ascii_lowered((#[trigger] extensions@[j])@) != ascii_lowered(ext@),
        decreases extensions@.len() - i,
    {
        if same_ignoring_ascii_case(extensions[i], ext) {
            assert(ascii_lowered(extensions@[i as int]@) == ascii_lowered(ext@));
            return true;
        }
        i += 1;
    }
    false
}

/// Whether some signal speaks for the format.
pub fn looks_like<P: NamePattern>(file: &FileProbe, cfg: &SniffConfig<'_, P>) -> (r: bool)
    ensures
        r == cfg.recognises(*file),
{
    if let Some(ext) = &file.extension {
        if has_extension(ext.as_str(), cfg.extensions) {
            return true;
        }
    }
    if let Some(name) = &file.name {
        if cfg.filename_pattern.matches(name.as_str()) {
            return true;
        }
    }
    if let Some(head) = &file.head {
        if looks_like_bytes(head.as_slice(), cfg) {
            return true;
        }
    }
    false
}

/// Whether the bytes begin with one of the magic prefixes.
pub fn looks_like_bytes<P: NamePattern>(head: &[u8], cfg: &SniffConfig<'_, P>) -> (r: bool)
    ensures
        r == cfg.knows_magic(head@),
{
    let prefixes = cfg.magic_prefixes;
    let mut i: usize = 0;
    while i < prefixes.len()
        invariant
            i <= prefixes@.len(),
            prefixes@ == cfg.magic_prefixes@,
            forall|j: int| 0 <= j < i ==> !begins_with(head@, (#[trigger] prefixes@[j])@),
        decreases prefixes@.len() - i,
    {
        if starts_with(head, prefixes[i]) {
            assert(begins_with(head@, prefixes@[i as int]@));
            return true;
        }
        i += 1;
    }
    false
}

} // verus!
