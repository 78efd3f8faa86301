//! Reading a plugin's descriptor section without executing the library, and
//! the bounded reads that the object parser performs on the file.
use crate::bytes::{le32, le32_bytes, lemma_le32_bytes, read_le32};
use crate::sdk::{
    magic, spec_manifest_section, MANIFEST_HEADER, MANIFEST_MAGIC, MAX_MANIFEST_BYTES,
};
use vstd::prelude::*;

verus! {

/// Why an embedded descriptor section was rejected.
#[derive(Clone, Copy, Debug, PartialEq, Eq, Structural)]
pub enum ManifestError {
    /// Shorter than the header, or the magic bytes differ.
    Header,
    /// The container version is not 1.
    Version,
    /// The declared JSON length exceeds the limit or the section.
    Length,
    /// The descriptor section is larger than a descriptor may be.
    SectionTooLarge,
}

pub open spec fn spec_manifest_message(e: ManifestError) -> Seq<char> {
    match e {
        ManifestError::Header => "插件内嵌清单头无效"@,
        ManifestError::Version => "插件内嵌清单版本不受支持"@,
        ManifestError::Length => "插件内嵌清单长度无效"@,
        ManifestError::SectionTooLarge => "插件内嵌清单段过大"@,
    }
}

impl ManifestError {
    pub fn message(&self) -> (m: &'static str)
        ensures
            m@ == spec_manifest_message(*self),
    {
        match self {
            ManifestError::Header => "插件内嵌清单头无效",
            ManifestError::Version => "插件内嵌清单版本不受支持",
            ManifestError::Length => "插件内嵌清单长度无效",
            ManifestError::SectionTooLarge => "插件内嵌清单段过大",
        }
    }
}

/// What a descriptor section decodes to: the embedded JSON, or the first
/// check it fails (header, then version, then length).
pub open spec fn spec_parse_manifest_section(data: Seq<u8>) -> Result<Seq<u8>, ManifestError> {
    if data.len() < MANIFEST_HEADER || data.take(8) != magic() {
        Err(ManifestError::Header)
    } else if le32(data, 8) != 1 {
        Err(ManifestError::Version)
    } else if le32(data, 12) > MAX_MANIFEST_BYTES || le32(data, 12) > data.len() - MANIFEST_HEADER {
        Err(ManifestError::Length)
    } else {
        Ok(data.subrange(MANIFEST_HEADER as int, MANIFEST_HEADER + le32(data, 12)))
    }
}

fn has_magic(data: &[u8]) -> (b: bool)
    requires
        data@.len() >= 8,
    ensures
        b == (data@.take(8) == magic()),
{
    let mut i: usize = 0;
    while i < 8
        invariant
            i <= 8,
            data@.len() >= 8,
            forall|j: int| 0 <= j < i ==> data@[j] == magic()[j],
        decreases 8 - i,
    {
        if data[i] != MANIFEST_MAGIC[i] {
            assert(data@.take(8)[i as int] != magic()[i as int]);
            return false;
        }
        i += 1;
    }
    assert(data@.take(8) =~= magic());
    true
}

/// Decodes the manifest JSON from the bytes of a descriptor section.
pub fn parse_manifest_section(data: &[u8]) -> (r: Result<Vec<u8>, ManifestError>)
    ensures
        match (r, spec_parse_manifest_section(data@)) {
            (Ok(json), Ok(spec)) => json@ == spec,
            (Err(e), Err(spec)) => e == spec,
            _ => false,
        },
{
    if data.len() < MANIFEST_HEADER || !has_magic(data) {
        return Err(ManifestError::Header);
    }
    if read_le32(data, 8) != 1 {
        return Err(ManifestError::Version);
    }
    let len = read_le32(data, 12) as usize;
    if len > MAX_MANIFEST_BYTES || len > data.len() - MANIFEST_HEADER {
        return Err(ManifestError::Length);
    }
    let mut json: Vec<u8> = Vec::new();
    let mut i: usize = 0;
    while i < len
        invariant
            i <= len,
            MANIFEST_HEADER + len <= data.len(),
            json@ == data@.subrange(MANIFEST_HEADER as int, MANIFEST_HEADER + i),
        decreases len - i,
    {
        json.push(data[MANIFEST_HEADER + i]);
        i += 1;
        assert(json@ == data@.subrange(MANIFEST_HEADER as int, MANIFEST_HEADER + i));
    }
    Ok(json)
}

/// Reading back a section built for a manifest gives exactly that manifest.
pub proof fn lemma_manifest_roundtrip(json: Seq<u8>)
    requires
        json.len() <= MAX_MANIFEST_BYTES,
    ensures
        spec_parse_manifest_section(spec_manifest_section(json)) == Ok::<Seq<u8>, ManifestError>(
            json,
        ),
{
    let s = spec_manifest_section(json);
    lemma_le32_bytes(1);
    lemma_le32_bytes(json.len() as u32);
    let h1 = magic() + le32_bytes(1);
    let h2 = h1 + le32_bytes(json.len() as u32);
    assert(s.take(8) =~= magic());
    assert(le32(s, 8) == le32(le32_bytes(1), 0));
    assert(le32(s, 12) == le32(le32_bytes(json.len() as u32), 0));
    assert(s.subrange(16, 16 + json.len() as int) =~= json);
}

/// A section that decodes to some manifest starts with the section that
/// would be built for that manifest; anything after it is ignored.
pub proof fn lemma_manifest_prefix(data: Seq<u8>)
    requires
        spec_parse_manifest_section(data) is Ok,
    ensures
        data.take(MANIFEST_HEADER + spec_parse_manifest_section(data)->Ok_0.len())
            == spec_manifest_section(spec_parse_manifest_section(data)->Ok_0),
{
    let json = spec_parse_manifest_section(data)->Ok_0;
    let n = le32(data, 12);
    assert(json.len() == n);
    let lb = le32_bytes(json.len() as u32);
    let vb = le32_bytes(1);
    assert(data[8] == 1 && data[9] == 0 && data[10] == 0 && data[11] == 0);
    assert(lb[0] == data[12] && lb[1] == data[13] && lb[2] == data[14] && lb[3] == data[15]);
    assert(data.take(8) =~= magic());
    let t = data.take(MANIFEST_HEADER + json.len());
    let s = spec_manifest_section(json);
    assert forall|i: int| 0 <= i < t.len() implies t[i] == s[i] by {
        if i < 8 {
            assert(t[i] == data.take(8)[i]);
        }
    }
    assert(t =~= s);
}

/// File names the plugin scanner inspects: `dll` in any letter case, `so`
/// and `dylib` exactly.
pub open spec fn spec_is_library_extension(ext: Seq<char>) -> bool {
    ||| (ext.len() == 3 && (ext[0] == 'd' || ext[0] == 'D') && (ext[1] == 'l' || ext[1] == 'L')
        && (ext[2] == 'l' || ext[2] == 'L'))
    ||| ext == seq!['s', 'o']
    ||| ext == seq!['d', 'y', 'l', 'i', 'b']
}

pub fn is_library_extension(ext: &str) -> (b: bool)
    ensures
        b == spec_is_library_extension(ext@),
{
    let chars = crate::text::chars_of(ext);
    let n = chars.len();
    if n == 3 {
        (chars[0] == 'd' || chars[0] == 'D') && (chars[1] == 'l' || chars[1] == 'L') && (chars[2]
            == 'l' || chars[2] == 'L')
    } else if n == 2 {
        let b = chars[0] == 's' && chars[1] == 'o';
        assert(b == (chars@ == seq!['s', 'o'])) by {
            if b {
                assert(chars@ =~= seq!['s', 'o']);
            }
        }
        b
    } else if n == 5 {
        let b = chars[0] == 'd' && chars[1] == 'y' && chars[2] == 'l' && chars[3] == 'i' && chars[4]
            == 'b';
        assert(b == (chars@ == seq!['d', 'y', 'l', 'i', 'b'])) by {
            if b {
                assert(chars@ =~= seq!['d', 'y', 'l', 'i', 'b']);
            }
        }
        b
    } else {
        false
    }
}

/// The largest descriptor section that is read (128 KiB).
pub const MAX_SECTION_BYTES: u64 = 131072;

pub open spec fn spec_section_name(attempt: usize) -> Option<Seq<char>> {
    if attempt == 0 {
        Some(".oumeta"@)
    } else if attempt == 1 {
        Some("__oumeta"@)
    } else {
        None
    }
}

/// The section names searched for the descriptor, in turn: the ELF and PE
/// name `.oumeta` first, then the Mach-O name `__oumeta`; `None` once both
/// were tried.
pub fn descriptor_section_name(attempt: usize) -> (r: Option<&'static str>)
    ensures
        match (r, spec_section_name(attempt)) {
            (Some(name), Some(expected)) => name@ == expected,
            (None, None) => true,
            _ => false,
        },
{
    if attempt == 0 {
        Some(".oumeta")
    } else if attempt == 1 {
        Some("__oumeta")
    } else {
        None
    }
}

/// Refuses a descriptor section larger than 128 KiB before it is read.
pub fn check_section_size(size: u64) -> (r: Result<(), ManifestError>)
    ensures
        r == (if size <= MAX_SECTION_BYTES {
            Ok(())
        } else {
            Err(ManifestError::SectionTooLarge)
        }),
{
    if size <= MAX_SECTION_BYTES {
        Ok(())
    } else {
        Err(ManifestError::SectionTooLarge)
    }
}

/// Charges a read of `size` bytes against the remaining read budget; `None`
/// when the budget would be exceeded.
pub fn charge_budget(budget: u64, size: u64) -> (r: Option<u64>)
    ensures
        r == (if size <= budget {
            Some((budget - size) as u64)
        } else {
            None::<u64>
        }),
{
    budget.checked_sub(size)
}

/// The number of bytes to read when searching `start..end` for a delimiter:
/// at most 4096; `None` when the range is reversed.
pub fn delimited_read_size(start: u64, end: u64) -> (r: Option<u64>)
    ensures
        r == (if start <= end {
            Some(if end - start <= 4096 {
                (end - start) as u64
            } else {
                4096u64
            })
        } else {
            None::<u64>
        }),
{
    match end.checked_sub(start) {
        Some(size) => Some(if size <= 4096 {
            size
        } else {
            4096
        }),
        None => None,
    }
}

/// The position of the first `delimiter` in `bytes`.
pub fn find_delimiter(bytes: &[u8], delimiter: u8) -> (r: Option<usize>)
    ensures
        match r {
            Some(i) => i < bytes@.len() && bytes@[i as int] == delimiter && forall|j: int|
                0 <= j < i ==> bytes@[j] != delimiter,
            None => forall|j: int| 0 <= j < bytes@.len() ==> bytes@[j] != delimiter,
        },
{
    let mut i: usize = 0;
    while i < bytes.len()
        invariant
            i <= bytes@.len(),
            forall|j: int| 0 <= j < i ==> bytes@[j] != delimiter,
        decreases bytes@.len() - i,
    {
        if bytes[i] == delimiter {
            return Some(i);
        }
        i += 1;
    }
    None
}

} // verus!
