use openuuyc::metadata::{
    charge_budget, check_section_size, delimited_read_size, descriptor_section_name,
    find_delimiter, is_library_extension, parse_manifest_section, ManifestError,
};
use openuuyc::sdk::{manifest_section, MANIFEST_HEADER, MANIFEST_MAGIC};

#[test]
fn section_layout() {
    let section = manifest_section(b"{}");
    assert_eq!(section.len(), MANIFEST_HEADER + 2);
    assert_eq!(&section[..8], b"OUYCMETA");
    assert_eq!(&section[..8], &MANIFEST_MAGIC);
    assert_eq!(&section[8..12], &[1, 0, 0, 0]);
    assert_eq!(&section[12..16], &[2, 0, 0, 0]);
    assert_eq!(&section[16..], b"{}");
}

#[test]
fn section_reads_back_its_json() {
    let json = br#"{"name":"effects","nodes":[]}"#;
    assert_eq!(parse_manifest_section(&manifest_section(json)), Ok(json.to_vec()));
    assert_eq!(parse_manifest_section(&manifest_section(b"")), Ok(Vec::new()));
}

#[test]
fn trailing_bytes_after_the_json_are_ignored() {
    let mut section = manifest_section(b"[1]");
    section.extend_from_slice(&[0; 5]);
    assert_eq!(parse_manifest_section(&section), Ok(b"[1]".to_vec()));
}

#[test]
fn section_errors() {
    assert_eq!(parse_manifest_section(b"OUYCMETA"), Err(ManifestError::Header));
    let mut bad = manifest_section(b"{}");
    bad[0] = b'X';
    assert_eq!(parse_manifest_section(&bad), Err(ManifestError::Header));
    let mut v2 = manifest_section(b"{}");
    v2[8] = 2;
    assert_eq!(parse_manifest_section(&v2), Err(ManifestError::Version));
    let mut long = manifest_section(b"{}");
    long[12] = 3;
    assert_eq!(parse_manifest_section(&long), Err(ManifestError::Length));
    let mut huge = manifest_section(b"{}");
    huge[12..16].copy_from_slice(&65537u32.to_le_bytes());
    huge.resize(16 + 65537, b' ');
    assert_eq!(parse_manifest_section(&huge), Err(ManifestError::Length));
    assert_eq!(ManifestError::Version.message(), "插件内嵌清单版本不受支持");
}

#[test]
fn library_extensions() {
    for (ext, ok) in [
        ("dll", true),
        ("DLL", true),
        ("dLl", true),
        ("so", true),
        ("SO", false),
        ("dylib", true),
        ("DYLIB", false),
        ("exe", false),
        ("", false),
    ] {
        assert_eq!(is_library_extension(ext), ok, "{ext}");
    }
}

#[test]
fn bounded_reads() {
    assert_eq!(charge_budget(10, 4), Some(6));
    assert_eq!(charge_budget(10, 10), Some(0));
    assert_eq!(charge_budget(3, 4), None);
    assert_eq!(delimited_read_size(10, 20), Some(10));
    assert_eq!(delimited_read_size(10, 5000), Some(4096));
    assert_eq!(delimited_read_size(20, 10), None);
    assert_eq!(find_delimiter(b"ab\0c\0", 0), Some(2));
    assert_eq!(find_delimiter(b"abc", 0), None);
}

#[test]
fn descriptor_sections_are_searched_by_both_names() {
    assert_eq!(descriptor_section_name(0), Some(".oumeta"));
    assert_eq!(descriptor_section_name(1), Some("__oumeta"));
    assert_eq!(descriptor_section_name(2), None);
}

#[test]
fn oversized_descriptor_sections_are_refused() {
    assert_eq!(check_section_size(128 * 1024), Ok(()));
    assert_eq!(check_section_size(128 * 1024 + 1), Err(ManifestError::SectionTooLarge));
    assert_eq!(ManifestError::SectionTooLarge.message(), "插件内嵌清单段过大");
}
