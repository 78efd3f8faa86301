use openuuyc::clipboard::{
    ansi_bytes, ansi_text, find_published, replace_crlf, replace_lf, select_offer,
    text_from_decoded, unicode_bytes, utf16_text, ClipboardError, LocalSnapshot, CF_DIB, CF_TEXT,
    CF_UNICODETEXT,
};

fn utf16(words: &[u16]) -> Vec<u8> {
    words.iter().flat_map(|w| w.to_le_bytes()).collect()
}

#[test]
fn line_ends_convert_both_ways() {
    let text: Vec<char> = "a\nb\r\nc".chars().collect();
    let crlf = replace_lf(&text);
    assert_eq!(crlf.iter().collect::<String>(), "a\r\nb\r\r\nc");
    assert_eq!(replace_crlf(&crlf), text);
}

#[test]
fn text_format_is_crlf_utf8_with_nul() {
    assert_eq!(ansi_bytes("a\nb"), vec![97, 13, 10, 98, 0]);
    assert_eq!(ansi_bytes("é"), vec![0xc3, 0xa9, 0]);
}

#[test]
fn text_format_reads_back_as_written() {
    for text in ["", "one line", "two\nlines\n", "mixed\r\nends\n", "中文"] {
        assert_eq!(ansi_text(&ansi_bytes(text)), text);
    }
}

#[test]
fn arriving_text_drops_nuls_and_crlf() {
    assert_eq!(ansi_text(b"a\r\nb\0\0\0"), "a\nb");
    assert_eq!(ansi_text(&[0x66, 0xff, 0]), "f\u{fffd}");
}

#[test]
fn unicode_text_decodes_utf16() {
    let mut words = vec![0xfeff];
    words.extend("hi\r\n€".encode_utf16());
    words.extend([0, 0]);
    assert_eq!(utf16_text(&utf16(&words)), Ok("hi\n€".to_string()));
    let emoji: Vec<u16> = "😀".encode_utf16().collect();
    assert_eq!(utf16_text(&utf16(&emoji)), Ok("😀".to_string()));
}

#[test]
fn unicode_text_errors() {
    assert_eq!(utf16_text(&[0x61, 0x00, 0x62]), Err(ClipboardError::OddUnicode));
    assert_eq!(utf16_text(&utf16(&[0xd800, 0x61])), Err(ClipboardError::InvalidUtf16));
    assert_eq!(utf16_text(&[]), Ok(String::new()));
}

#[test]
fn snapshot_offers_text_then_image() {
    let s = LocalSnapshot {
        text: Some("x".to_string()),
        image: Some(vec![1, 2]),
    };
    let ids: Vec<u32> = s.format_ids().into_iter().map(|(id, name)| {
        assert!(name.is_empty());
        id
    }).collect();
    assert_eq!(ids, vec![CF_UNICODETEXT, CF_TEXT, CF_DIB]);
    assert!(!s.is_empty());
    assert!(LocalSnapshot::default().is_empty());
    assert!(LocalSnapshot::default().format_ids().is_empty());
}

#[test]
fn snapshot_data_by_format() {
    let s = LocalSnapshot {
        text: Some("a\nb".to_string()),
        image: None,
    };
    assert_eq!(s.data(CF_UNICODETEXT), Ok(vec![97, 0, 13, 0, 10, 0, 98, 0, 0, 0]));
    assert_eq!(s.data(CF_TEXT), Ok(vec![97, 13, 10, 98, 0]));
    assert_eq!(s.data(CF_DIB), Err(ClipboardError::NoImage));
    assert_eq!(s.data(49161), Err(ClipboardError::UnsupportedFormat));
    let i = LocalSnapshot {
        text: None,
        image: Some(vec![9]),
    };
    assert_eq!(i.data(CF_DIB), Ok(vec![9]));
    assert_eq!(i.data(CF_TEXT), Err(ClipboardError::NoText));
    assert_eq!(i.data(CF_UNICODETEXT), Err(ClipboardError::NoText));
}

#[test]
fn offers_are_taken_by_preference() {
    assert_eq!(select_offer(&vec![8, 1, 13]), Some(2));
    assert_eq!(select_offer(&vec![17, 8, 8]), Some(1));
    assert_eq!(select_offer(&vec![17]), Some(0));
    assert_eq!(select_offer(&vec![5, 49161]), None);
    assert_eq!(select_offer(&vec![]), None);
}

#[test]
fn published_format_is_found_by_id_and_name() {
    let wire = vec![
        (13u32, String::new()),
        (49161u32, "HTML Format".to_string()),
        (49161u32, "Rich Text".to_string()),
    ];
    assert_eq!(find_published(&wire, 49161, "Rich Text"), Some(2));
    assert_eq!(find_published(&wire, 49161, ""), Some(1));
    assert_eq!(find_published(&wire, 49161, "PNG"), None);
    assert_eq!(find_published(&wire, 13, ""), Some(0));
}

#[test]
fn clipboard_error_messages() {
    assert_eq!(ClipboardError::NoText.message(), "本地剪贴板没有文本");
    assert_eq!(ClipboardError::UnsupportedFormat.message(), "不支持的本地剪贴板格式");
}

#[test]
fn a_poll_prefers_text_over_an_image() {
    let s = LocalSnapshot::from_reads(Some("hi".to_string()), Some(vec![1, 2]));
    assert_eq!(s.text.as_deref(), Some("hi"));
    assert_eq!(s.image, None);
    let s = LocalSnapshot::from_reads(Some(String::new()), Some(vec![1, 2]));
    assert_eq!(s.text, None);
    assert_eq!(s.image, Some(vec![1, 2]));
    let s = LocalSnapshot::from_reads(None, None);
    assert!(s.is_empty());
}

#[test]
fn unchanged_clipboard_content_is_recognised() {
    let a = LocalSnapshot { text: Some("x".to_string()), image: None };
    let b = LocalSnapshot { text: Some("x".to_string()), image: None };
    let c = LocalSnapshot { text: None, image: Some(vec![0]) };
    let d = LocalSnapshot { text: None, image: Some(vec![1]) };
    assert!(a.same_as(&b));
    assert!(!a.same_as(&c));
    assert!(!c.same_as(&d));
    assert!(c.same_as(&c));
    assert!(LocalSnapshot::from_reads(None, None).same_as(&LocalSnapshot { text: None, image: None }));
}

#[test]
fn decoded_ansi_text_loses_terminators_and_crlf() {
    assert_eq!(text_from_decoded("a\r\nb\0\0"), "a\nb");
    assert_eq!(text_from_decoded("\0"), "");
    assert_eq!(text_from_decoded("x\0y"), "x\0y");
}

#[test]
fn unicode_text_is_utf16le_with_crlf_and_a_terminator() {
    assert_eq!(unicode_bytes(""), vec![0, 0]);
    assert_eq!(unicode_bytes("\n"), vec![13, 0, 10, 0, 0, 0]);
    assert_eq!(unicode_bytes("中"), vec![0x2d, 0x4e, 0, 0]);
    assert_eq!(unicode_bytes("😀"), vec![0x3d, 0xd8, 0x00, 0xde, 0, 0]);
}

#[test]
fn unicode_text_reads_back() {
    for text in ["", "a\nb", "中文\r\n😀", "x\n"] {
        assert_eq!(utf16_text(&unicode_bytes(text)), Ok(text.to_string()));
    }
}
