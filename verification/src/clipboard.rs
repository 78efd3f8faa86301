//! Clipboard payloads exchanged with a Windows peer: the local snapshot that
//! is offered, and the decoding of text formats that arrive.
use crate::bytes::{bytes_equal, le16};
use crate::text::{chars_of, str_eq, string_of};
use vstd::prelude::*;
use vstd::utf8::{decode_utf8, valid_utf8};

verus! {

/// `CF_TEXT`.
pub const CF_TEXT: u32 = 1;

/// `CF_DIB`.
pub const CF_DIB: u32 = 8;

/// `CF_UNICODETEXT`.
pub const CF_UNICODETEXT: u32 = 13;

/// `CF_DIBV5`.
pub const CF_DIBV5: u32 = 17;

/// Why clipboard data could not be produced or decoded.
#[derive(Clone, Copy, Debug, PartialEq, Eq, Structural)]
pub enum ClipboardError {
    /// The local clipboard holds no text.
    NoText,
    /// The local clipboard holds no image.
    NoImage,
    /// The format is not one this adapter offers.
    UnsupportedFormat,
    /// Unicode text with an odd number of bytes.
    OddUnicode,
    /// Unicode text with an unpaired surrogate.
    InvalidUtf16,
}

pub open spec fn spec_clipboard_message(e: ClipboardError) -> Seq<char> {
    match e {
        ClipboardError::NoText => "本地剪贴板没有文本"@,
        ClipboardError::NoImage => "本地剪贴板没有图片"@,
        ClipboardError::UnsupportedFormat => "不支持的本地剪贴板格式"@,
        ClipboardError::OddUnicode => "无效的Unicode剪贴板"@,
        ClipboardError::InvalidUtf16 => "invalid utf-16: lone surrogate found"@,
    }
}

impl ClipboardError {
    pub fn message(&self) -> (m: &'static str)
        ensures
            m@ == spec_clipboard_message(*self),
    {
        match self {
            ClipboardError::NoText => "本地剪贴板没有文本",
            ClipboardError::NoImage => "本地剪贴板没有图片",
            ClipboardError::UnsupportedFormat => "不支持的本地剪贴板格式",
            ClipboardError::OddUnicode => "无效的Unicode剪贴板",
            ClipboardError::InvalidUtf16 => "invalid utf-16: lone surrogate found",
        }
    }
}

/// `s` with every `"\r\n"` replaced by `"\n"`, scanning from the front.
pub open spec fn crlf_to_lf(s: Seq<char>) -> Seq<char>
    decreases s.len(),
{
    if s.len() == 0 {
        s
    } else if s.len() >= 2 && s[0] == '\r' && s[1] == '\n' {
        seq!['\n'] + crlf_to_lf(s.skip(2))
    } else {
        seq![s[0]] + crlf_to_lf(s.skip(1))
    }
}

/// `s` with every `'\n'` replaced by `"\r\n"`.
pub open spec fn lf_to_crlf(s: Seq<char>) -> Seq<char>
    decreases s.len(),
{
    if s.len() == 0 {
        s
    } else if s[0] == '\n' {
        seq!['\r', '\n'] + lf_to_crlf(s.skip(1))
    } else {
        seq![s[0]] + lf_to_crlf(s.skip(1))
    }
}

pub fn replace_crlf(chars: &Vec<char>) -> (out: Vec<char>)
    ensures
        out@ == crlf_to_lf(chars@),
{
    let mut out: Vec<char> = Vec::new();
    let mut i: usize = 0;
    let n = chars.len();
    assert(out@ + crlf_to_lf(chars@.skip(0)) =~= crlf_to_lf(chars@)) by {
        assert(chars@.skip(0) =~= chars@);
    }
    while i < n
        invariant
            i <= n,
            n == chars@.len(),
            out@ + crlf_to_lf(chars@.skip(i as int)) == crlf_to_lf(chars@),
        decreases n - i,
    {
        let ghost rest = chars@.skip(i as int);
        if chars[i] == '\r' && i + 1 < n && chars[i + 1] == '\n' {
            out.push('\n');
            assert(rest.skip(2) =~= chars@.skip(i + 2));
            assert(out@ + crlf_to_lf(chars@.skip(i + 2)) =~= crlf_to_lf(chars@));
            i += 2;
        } else {
            out.push(chars[i]);
            assert(rest.skip(1) =~= chars@.skip(i + 1));
            assert(out@ + crlf_to_lf(chars@.skip(i + 1)) =~= crlf_to_lf(chars@));
            i += 1;
        }
    }
    assert(chars@.skip(n as int) =~= Seq::<char>::empty());
    assert(out@ + crlf_to_lf(chars@.skip(n as int)) =~= out@);
    out
}

pub fn replace_lf(chars: &Vec<char>) -> (out: Vec<char>)
    ensures
        out@ == lf_to_crlf(chars@),
{
    let mut out: Vec<char> = Vec::new();
    let mut i: usize = 0;
    let n = chars.len();
    assert(out@ + lf_to_crlf(chars@.skip(0)) =~= lf_to_crlf(chars@)) by {
        assert(chars@.skip(0) =~= chars@);
    }
    while i < n
        invariant
            i <= n,
            n == chars@.len(),
            out@ + lf_to_crlf(chars@.skip(i as int)) == lf_to_crlf(chars@),
        decreases n - i,
    {
        let ghost rest = chars@.skip(i as int);
        if chars[i] == '\n' {
            out.push('\r');
            out.push('\n');
        } else {
            out.push(chars[i]);
        }
        assert(rest.skip(1) =~= chars@.skip(i + 1));
        assert(out@ + lf_to_crlf(chars@.skip(i + 1)) =~= lf_to_crlf(chars@));
        i += 1;
    }
    assert(chars@.skip(n as int) =~= Seq::<char>::empty());
    assert(out@ + lf_to_crlf(chars@.skip(n as int)) =~= out@);
    out
}

/// The bytes `CF_TEXT` carries for `text`: UTF-8 with CRLF line ends and a
/// terminating NUL.
pub open spec fn spec_ansi_bytes(text: Seq<char>) -> Seq<u8> {
    vstd::utf8::encode_utf8(lf_to_crlf(text)).push(0u8)
}

/// The UTF-8 bytes of `s`. Wraps `str::as_bytes`, copied into a `Vec`.
fn utf8_bytes(s: &str) -> (v: Vec<u8>)
    ensures
        v@ == vstd::utf8::encode_utf8(s@),
{
    let b = s.as_bytes();
    let mut v: Vec<u8> = Vec::new();
    let mut i: usize = 0;
    while i < b.len()
        invariant
            i <= b@.len(),
            b@ == vstd::utf8::encode_utf8(s@),
            v@ == b@.take(i as int),
        decreases b@.len() - i,
    {
        v.push(b[i]);
        i += 1;
        assert(v@ == b@.take(i as int));
    }
    assert(b@.take(b@.len() as int) =~= b@);
    v
}

pub fn ansi_bytes(text: &str) -> (bytes: Vec<u8>)
    ensures
        bytes@ == spec_ansi_bytes(text@),
{
    let chars = chars_of(text);
    let replaced = replace_lf(&chars);
    let s = string_of(replaced.as_slice());
    let mut bytes = utf8_bytes(s.as_str());
    bytes.push(0);
    bytes
}

/// What this client currently owns locally, as the remote would see it.
#[derive(Debug, Default)]
pub struct LocalSnapshot {
    pub text: Option<String>,
    pub image: Option<Vec<u8>>,
}

/// The local format ids a snapshot offers, in order.
pub open spec fn spec_format_ids(has_text: bool, has_image: bool) -> Seq<u32> {
    (if has_text {
        seq![CF_UNICODETEXT, CF_TEXT]
    } else {
        Seq::empty()
    }) + (if has_image {
        seq![CF_DIB]
    } else {
        Seq::empty()
    })
}

/// Two snapshots hold the same text and the same image.
pub open spec fn same_content(a: LocalSnapshot, b: LocalSnapshot) -> bool {
    &&& match (a.text, b.text) {
        (None, None) => true,
        (Some(x), Some(y)) => x@ == y@,
        _ => false,
    }
    &&& match (a.image, b.image) {
        (None, None) => true,
        (Some(x), Some(y)) => x@ == y@,
        _ => false,
    }
}

impl LocalSnapshot {
    pub fn is_empty(&self) -> (b: bool)
        ensures
            b == (self.text is None && self.image is None),
    {
        self.text.is_none() && self.image.is_none()
    }

    /// `CF_UNICODETEXT` and `CF_TEXT` for text, `CF_DIB` for an image: what a
    /// Windows peer understands. Each carries an empty format name.
    pub fn format_ids(&self) -> (ids: Vec<(u32, String)>)
        ensures
            ids@.len() == spec_format_ids(self.text is Some, self.image is Some).len(),
            forall|i: int|
                0 <= i < ids@.len() ==> ids@[i].0 == spec_format_ids(
                    self.text is Some,
                    self.image is Some,
                )[i] && ids@[i].1@ == Seq::<char>::empty(),
    {
        let mut ids: Vec<(u32, String)> = Vec::new();
        if self.text.is_some() {
            ids.push((CF_UNICODETEXT, String::new()));
            ids.push((CF_TEXT, String::new()));
        }
        if self.image.is_some() {
            ids.push((CF_DIB, String::new()));
        }
        ids
    }

    /// The snapshot a poll of the local clipboard gives: its text when it
    /// holds some, else the image read in its place (`None` when there is
    /// none either).
    pub fn from_reads(text: Option<String>, image: Option<Vec<u8>>) -> (s: LocalSnapshot)
        ensures
            match text {
                Some(t) if t@.len() > 0 => s.text == Some(t) && s.image is None,
                _ => s.text is None && s.image == image,
            },
    {
        match text {
            Some(t) if t.as_str().unicode_len() > 0 => LocalSnapshot { text: Some(t), image: None },
            _ => LocalSnapshot { text: None, image },
        }
    }

    /// Whether two snapshots hold the same text and image: a poll that finds
    /// the same content announces nothing.
    pub fn same_as(&self, other: &LocalSnapshot) -> (b: bool)
        ensures
            b == same_content(*self, *other),
    {
        let texts = match (&self.text, &other.text) {
            (None, None) => true,
            (Some(a), Some(b)) => str_eq(a.as_str(), b.as_str()),
            _ => false,
        };
        let images = match (&self.image, &other.image) {
            (None, None) => true,
            (Some(a), Some(b)) => bytes_equal(a.as_slice(), b.as_slice()),
            _ => false,
        };
        texts && images
    }

    /// The bytes of one offered local format: `CF_UNICODETEXT` and
    /// `CF_TEXT` carry the text with CRLF line ends, NUL-terminated, in
    /// UTF-16LE and UTF-8; `CF_DIB` carries the bitmap as it is.
    pub fn data(&self, local: u32) -> (r: Result<Vec<u8>, ClipboardError>)
        ensures
            local == CF_UNICODETEXT ==> match (r, self.text) {
                (Ok(b), Some(t)) => b@ == spec_unicode_bytes(t@),
                (Err(e), None) => e == ClipboardError::NoText,
                _ => false,
            },
            local == CF_TEXT ==> match (r, self.text) {
                (Ok(b), Some(t)) => b@ == spec_ansi_bytes(t@),
                (Err(e), None) => e == ClipboardError::NoText,
                _ => false,
            },
            local == CF_DIB ==> match (r, self.image) {
                (Ok(b), Some(image)) => b@ == image@,
                (Err(e), None) => e == ClipboardError::NoImage,
                _ => false,
            },
            local != CF_UNICODETEXT && local != CF_TEXT && local != CF_DIB ==> r == Err::<
                Vec<u8>,
                ClipboardError,
            >(ClipboardError::UnsupportedFormat),
    {
        if local == CF_UNICODETEXT {
            match &self.text {
                Some(text) => Ok(unicode_bytes(text.as_str())),
                None => Err(ClipboardError::NoText),
            }
        } else if local == CF_TEXT {
            match &self.text {
                Some(text) => Ok(ansi_bytes(text.as_str())),
                None => Err(ClipboardError::NoText),
            }
        } else if local == CF_DIB {
            match &self.image {
                Some(image) => Ok(image.clone()),
                None => Err(ClipboardError::NoImage),
            }
        } else {
            Err(ClipboardError::UnsupportedFormat)
        }
    }
}

// ---- UTF-16 text -------------------------------------------------------------
/// The UTF-16 code units of `c`: one below 0x10000, else a surrogate pair.
pub open spec fn utf16_units(c: char) -> Seq<u16> {
    let v = c as u32;
    if v < 0x10000 {
        seq![v as u16]
    } else {
        seq![(0xD800 + (v - 0x10000) / 1024) as u16, (0xDC00 + (v - 0x10000) % 1024) as u16]
    }
}

proof fn lemma_unit_cast(v: u32)
    requires
        v < 0x10000,
    ensures
        (v as u16) as u32 == v,
{
    assert((v as u16) as u32 == v) by (bit_vector)
        requires
            v < 0x10000,
    ;
}

proof fn lemma_surrogates(v: u32)
    requires
        0x10000 <= v <= 0x10FFFF,
    ensures
        0xD800 <= ((0xD800 + (v - 0x10000) / 1024) as u16) <= 0xDBFF,
        0xDC00 <= ((0xDC00 + (v - 0x10000) % 1024) as u16) <= 0xDFFF,
        0x10000 + (((0xD800 + (v - 0x10000) / 1024) as u16) - 0xD800) * 1024 + (((0xDC00 + (v
            - 0x10000) % 1024) as u16) - 0xDC00) == v,
{
    assert(0xD800 <= ((0xD800 + (v - 0x10000) / 1024) as u16) <= 0xDBFF) by (bit_vector)
        requires
            0x10000 <= v <= 0x10FFFF,
    ;
    assert(0xDC00 <= ((0xDC00 + (v - 0x10000) % 1024) as u16) <= 0xDFFF) by (bit_vector)
        requires
            0x10000 <= v <= 0x10FFFF,
    ;
    assert(0x10000 + (((0xD800 + (v - 0x10000) / 1024) as u16) - 0xD800) * 1024 + (((0xDC00 + (v
        - 0x10000) % 1024) as u16) - 0xDC00) == v) by (bit_vector)
        requires
            0x10000 <= v <= 0x10FFFF,
    ;
}

/// The UTF-16 code units of `s`.
pub open spec fn encode_utf16(s: Seq<char>) -> Seq<u16>
    decreases s.len(),
{
    if s.len() == 0 {
        Seq::empty()
    } else {
        utf16_units(s[0]) + encode_utf16(s.skip(1))
    }
}

/// Code units as little-endian bytes.
pub open spec fn le16_bytes(words: Seq<u16>) -> Seq<u8> {
    Seq::new(
        2 * words.len(),
        |i: int|
            if i % 2 == 0 {
                (words[i / 2] % 256) as u8
            } else {
                (words[i / 2] / 256) as u8
            },
    )
}

/// `CF_UNICODETEXT` bytes for `text`: CRLF line ends, UTF-16LE, and a NUL
/// unit at the end.
pub open spec fn spec_unicode_bytes(text: Seq<char>) -> Seq<u8> {
    le16_bytes(encode_utf16(lf_to_crlf(text)).push(0))
}

proof fn lemma_encode_utf16_push(s: Seq<char>, c: char)
    ensures
        encode_utf16(s.push(c)) == encode_utf16(s) + utf16_units(c),
    decreases s.len(),
{
    if s.len() == 0 {
        let one = s.push(c);
        assert(one[0] == c);
        assert(one.skip(1) =~= Seq::<char>::empty());
        assert(encode_utf16(one.skip(1)) =~= Seq::<u16>::empty());
        assert(encode_utf16(s) =~= Seq::<u16>::empty());
        assert(encode_utf16(one) =~= encode_utf16(s) + utf16_units(c));
    } else {
        assert(s.push(c).skip(1) =~= s.skip(1).push(c));
        assert(s.push(c)[0] == s[0]);
        lemma_encode_utf16_push(s.skip(1), c);
        assert(encode_utf16(s.push(c)) =~= encode_utf16(s) + utf16_units(c));
    }
}

fn push_utf16_units(words: &mut Vec<u16>, c: char)
    ensures
        final(words)@ == old(words)@ + utf16_units(c),
{
    let v = c as u32;
    if v < 0x10000 {
        words.push(v as u16);
    } else {
        let x = v - 0x10000;
        words.push((0xD800 + x / 1024) as u16);
        words.push((0xDC00 + x % 1024) as u16);
    }
    assert(final(words)@ =~= old(words)@ + utf16_units(c));
}

/// `CF_UNICODETEXT` bytes for `text`: CRLF line ends, UTF-16LE, and a NUL
/// unit at the end.
pub fn unicode_bytes(text: &str) -> (bytes: Vec<u8>)
    ensures
        bytes@ == spec_unicode_bytes(text@),
{
    let chars = replace_lf(&chars_of(text));
    let mut words: Vec<u16> = Vec::new();
    let mut i: usize = 0;
    while i < chars.len()
        invariant
            i <= chars@.len(),
            words@ == encode_utf16(chars@.take(i as int)),
        decreases chars@.len() - i,
    {
        proof {
            assert(chars@.take(i + 1) =~= chars@.take(i as int).push(chars@[i as int]));
            lemma_encode_utf16_push(chars@.take(i as int), chars@[i as int]);
        }
        push_utf16_units(&mut words, chars[i]);
        i += 1;
    }
    assert(chars@.take(chars@.len() as int) =~= chars@);
    words.push(0);
    let mut bytes: Vec<u8> = Vec::new();
    let mut k: usize = 0;
    while k < words.len()
        invariant
            k <= words@.len(),
            words@.len() == encode_utf16(chars@).len() + 1,
            bytes@ == le16_bytes(words@.take(k as int)),
        decreases words@.len() - k,
    {
        let w = words[k];
        bytes.push((w % 256) as u8);
        bytes.push((w / 256) as u8);
        assert(bytes@ =~= le16_bytes(words@.take(k + 1)));
        k += 1;
    }
    assert(words@.take(words@.len() as int) =~= words@);
    bytes
}

proof fn lemma_utf16_words_of_le16(words: Seq<u16>)
    ensures
        utf16_words(le16_bytes(words)) == words,
{
    let b = le16_bytes(words);
    assert forall|i: int| 0 <= i < words.len() implies #[trigger] utf16_words(b)[i] == words[i] by {
        assert(b[2 * i] == (words[i] % 256) as u8);
        assert(b[2 * i + 1] == (words[i] / 256) as u8);
    }
    assert(utf16_words(b) =~= words);
}

proof fn lemma_decode_encode_utf16(s: Seq<char>)
    ensures
        decode_utf16(encode_utf16(s)) == Some(s),
    decreases s.len(),
{
    if s.len() > 0 {
        let c = s[0];
        let w = encode_utf16(s);
        lemma_decode_encode_utf16(s.skip(1));
        let v = c as u32;
        vstd::utf8::char_is_scalar(c);
        vstd::utf8::char_u32_cast(c, v);
        if v < 0x10000 {
            lemma_unit_cast(v);
            assert(w.skip(1) =~= encode_utf16(s.skip(1)));
            assert(w[0] as u32 == v);
            assert(s =~= seq![c] + s.skip(1));
        } else {
            lemma_surrogates(v);
            assert(w.skip(2) =~= encode_utf16(s.skip(1)));
            assert(s =~= seq![c] + s.skip(1));
        }
    }
}

proof fn lemma_units_ends(c: char)
    ensures
        utf16_units(c).len() > 0,
        c != '\0' ==> utf16_units(c).last() != 0,
        c != '\u{feff}' ==> utf16_units(c)[0] != 0xfeff,
{
    vstd::utf8::char_is_scalar(c);
    let v = c as u32;
    if v < 0x10000 {
        lemma_unit_cast(v);
        vstd::utf8::char_u32_cast(c, v);
        if v == 0 {
            vstd::utf8::char_u32_cast('\0', 0);
        }
        if v == 0xfeff {
            vstd::utf8::char_u32_cast('\u{feff}', 0xfeff);
        }
    } else {
        lemma_surrogates(v);
    }
}

proof fn lemma_encode_ends(t: Seq<char>)
    requires
        t.len() > 0,
    ensures
        encode_utf16(t).len() > 0,
        encode_utf16(t).last() == utf16_units(t.last()).last(),
        encode_utf16(t)[0] == utf16_units(t[0])[0],
{
    lemma_units_ends(t[0]);
    lemma_units_ends(t.last());
    assert(t =~= t.drop_last().push(t.last()));
    lemma_encode_utf16_push(t.drop_last(), t.last());
}

/// Text written as `CF_UNICODETEXT` reads back as the same text, unless it
/// ends in NUL (taken for the terminator) or starts with U+FEFF (taken for
/// a byte-order mark).
pub proof fn lemma_unicode_roundtrip(text: Seq<char>)
    requires
        text.len() == 0 || text.last() != '\0',
        text.len() == 0 || text[0] != '\u{feff}',
    ensures
        spec_utf16_text(spec_unicode_bytes(text)) == Ok::<Seq<char>, ClipboardError>(text),
{
    let t = lf_to_crlf(text);
    let w = encode_utf16(t);
    lemma_utf16_words_of_le16(w.push(0));
    assert(w.push(0).drop_last() =~= w);
    if text.len() > 0 {
        assert(text =~= text.drop_last().push(text.last()));
        lemma_lf_to_crlf_push(text.drop_last(), text.last());
        lemma_lf_to_crlf_head_char(text);
        assert(t.last() == text.last());
        lemma_encode_ends(t);
        lemma_units_ends(t.last());
        lemma_units_ends(t[0]);
        assert(w.last() != 0);
        assert(w[0] != 0xfeff);
        assert(trim_trailing_zeros(w.push(0)) == trim_trailing_zeros(w));
        assert(trim_trailing_zeros(w) == w);
        assert(trim_trailing_zeros(w.push(0)) == w);
        assert(drop_bom(w) == w);
    } else {
        assert(w =~= Seq::<u16>::empty());
        assert(trim_trailing_zeros(w) == w);
        assert(trim_trailing_zeros(w.push(0)) == w);
        assert(drop_bom(w) == w);
    }
    assert(drop_bom(trim_trailing_zeros(w.push(0))) == w);
    lemma_decode_encode_utf16(t);
    lemma_crlf_undoes_lf(text);
}

proof fn lemma_lf_to_crlf_head_char(s: Seq<char>)
    requires
        s.len() > 0,
    ensures
        lf_to_crlf(s).len() > 0,
        lf_to_crlf(s)[0] == (if s[0] == '\n' {
            '\r'
        } else {
            s[0]
        }),
{
}

/// UTF-16 decoding: `None` at an unpaired surrogate.
pub open spec fn decode_utf16(words: Seq<u16>) -> Option<Seq<char>>
    decreases words.len(),
{
    if words.len() == 0 {
        Some(Seq::empty())
    } else if words[0] < 0xD800 || words[0] > 0xDFFF {
        match decode_utf16(words.skip(1)) {
            Some(rest) => Some(seq![words[0] as char] + rest),
            None => None,
        }
    } else if words[0] <= 0xDBFF && words.len() >= 2 && 0xDC00 <= words[1] <= 0xDFFF {
        match decode_utf16(words.skip(2)) {
            Some(rest) => Some(
                seq![(0x10000 + (words[0] - 0xD800) * 1024 + (words[1] - 0xDC00)) as char] + rest,
            ),
            None => None,
        }
    } else {
        None
    }
}

/// The character with scalar value `v`. Wraps `char::from_u32`, which returns
/// `Some` exactly for values up to 0x10FFFF outside the surrogate range.
#[verifier::external_body]
fn char_from_scalar(v: u32) -> (c: char)
    requires
        v <= 0x10FFFF,
        v < 0xD800 || v > 0xDFFF,
    ensures
        c == v as char,
{
    char::from_u32(v).unwrap()
}

fn decode_utf16_exec(words: &Vec<u16>, from: usize) -> (r: Option<Vec<char>>)
    requires
        from <= words@.len(),
    ensures
        match (r, decode_utf16(words@.skip(from as int))) {
            (Some(v), Some(s)) => v@ == s,
            (None, None) => true,
            _ => false,
        },
{
    let mut out: Vec<char> = Vec::new();
    let mut i = from;
    let n = words.len();
    while i < n
        invariant
            from <= i <= n,
            n == words@.len(),
            decode_utf16(words@.skip(from as int)) == match decode_utf16(words@.skip(i as int)) {
                Some(rest) => Some(out@ + rest),
                None => None::<Seq<char>>,
            },
        decreases n - i,
    {
        let ghost rest = words@.skip(i as int);
        let w = words[i];
        if w < 0xD800 || w > 0xDFFF {
            out.push(char_from_scalar(w as u32));
            assert(rest.skip(1) =~= words@.skip(i + 1));
            proof {
                match decode_utf16(words@.skip(i + 1)) {
                    Some(tail) => {
                        assert(out@ + tail =~= (out@.drop_last()) + (seq![w as char] + tail));
                    },
                    None => {},
                }
            }
            i += 1;
        } else if w <= 0xDBFF && i + 1 < n && 0xDC00 <= words[i + 1] && words[i + 1] <= 0xDFFF {
            let low = words[i + 1];
            let v: u32 = 0x10000 + (w as u32 - 0xD800) * 1024 + (low as u32 - 0xDC00);
            out.push(char_from_scalar(v));
            assert(rest.skip(2) =~= words@.skip(i + 2));
            proof {
                match decode_utf16(words@.skip(i + 2)) {
                    Some(tail) => {
                        assert(out@ + tail =~= (out@.drop_last()) + (seq![v as char] + tail));
                    },
                    None => {},
                }
            }
            i += 2;
        } else {
            return None;
        }
    }
    assert(words@.skip(n as int) =~= Seq::<u16>::empty());
    assert(out@ + Seq::<char>::empty() =~= out@);
    Some(out)
}

/// The UTF-16 code units of a little-endian byte sequence of even length.
pub open spec fn utf16_words(bytes: Seq<u8>) -> Seq<u16> {
    Seq::new(bytes.len() / 2, |i: int| le16(bytes, 2 * i) as u16)
}

/// `words` without its trailing zero units.
pub open spec fn trim_trailing_zeros(words: Seq<u16>) -> Seq<u16>
    decreases words.len(),
{
    if words.len() > 0 && words.last() == 0 {
        trim_trailing_zeros(words.drop_last())
    } else {
        words
    }
}

/// `words` without one leading byte-order mark.
pub open spec fn drop_bom(words: Seq<u16>) -> Seq<u16> {
    if words.len() > 0 && words[0] == 0xfeff {
        words.skip(1)
    } else {
        words
    }
}

/// What `CF_UNICODETEXT` bytes decode to: UTF-16LE without trailing NULs or a
/// leading byte-order mark, with CRLF line ends turned into LF.
pub open spec fn spec_utf16_text(bytes: Seq<u8>) -> Result<Seq<char>, ClipboardError> {
    if bytes.len() % 2 != 0 {
        Err(ClipboardError::OddUnicode)
    } else {
        match decode_utf16(drop_bom(trim_trailing_zeros(utf16_words(bytes)))) {
            Some(chars) => Ok(crlf_to_lf(chars)),
            None => Err(ClipboardError::InvalidUtf16),
        }
    }
}

pub fn utf16_text(bytes: &[u8]) -> (r: Result<String, ClipboardError>)
    ensures
        match (r, spec_utf16_text(bytes@)) {
            (Ok(s), Ok(spec)) => s@ == spec,
            (Err(e), Err(spec)) => e == spec,
            _ => false,
        },
{
    if bytes.len() % 2 != 0 {
        return Err(ClipboardError::OddUnicode);
    }
    let mut words: Vec<u16> = Vec::new();
    let mut i: usize = 0;
    let total = bytes.len();
    let n = total / 2;
    while i < n
        invariant
            i <= n,
            n == total / 2,
            total == bytes@.len(),
            bytes@.len() % 2 == 0,
            words@ == utf16_words(bytes@).take(i as int),
        decreases n - i,
    {
        words.push(crate::bytes::read_le16(bytes, 2 * i));
        i += 1;
        assert(words@ =~= utf16_words(bytes@).take(i as int));
    }
    assert(words@ =~= utf16_words(bytes@));
    while words.len() > 0 && words[words.len() - 1] == 0
        invariant
            trim_trailing_zeros(words@) == trim_trailing_zeros(utf16_words(bytes@)),
        decreases words@.len(),
    {
        words.pop();
    }
    let from: usize = if words.len() > 0 && words[0] == 0xfeff {
        1
    } else {
        0
    };
    let decoded = decode_utf16_exec(&words, from);
    assert(words@.skip(from as int) == drop_bom(trim_trailing_zeros(utf16_words(bytes@)))) by {
        assert(words@.skip(0) =~= words@);
    }
    match decoded {
        Some(chars) => {
            let text = replace_crlf(&chars);
            Ok(string_of(text.as_slice()))
        },
        None => Err(ClipboardError::InvalidUtf16),
    }
}

/// What `String::from_utf8_lossy` gives for `bytes`.
pub uninterp spec fn spec_utf8_lossy(bytes: Seq<u8>) -> Seq<char>;

/// Decodes UTF-8, replacing invalid sequences. Wraps `String::from_utf8_lossy`;
/// valid UTF-8 decodes exactly.
#[verifier::external_body]
fn utf8_lossy(bytes: &[u8]) -> (s: String)
    ensures
        s@ == spec_utf8_lossy(bytes@),
        valid_utf8(bytes@) ==> s@ == decode_utf8(bytes@),
{
    String::from_utf8_lossy(bytes).into_owned()
}

/// `s` without its trailing NUL characters.
pub open spec fn trim_trailing_nul(s: Seq<char>) -> Seq<char>
    decreases s.len(),
{
    if s.len() > 0 && s.last() == '\0' {
        trim_trailing_nul(s.drop_last())
    } else {
        s
    }
}

/// What arriving `CF_TEXT` bytes decode to.
pub open spec fn spec_ansi_text(bytes: Seq<u8>) -> Seq<char> {
    crlf_to_lf(trim_trailing_nul(spec_utf8_lossy(bytes)))
}


proof fn lemma_lf_to_crlf_head(s: Seq<char>)
    ensures
        lf_to_crlf(s).len() == 0 || lf_to_crlf(s)[0] != '\n',
{
}

proof fn lemma_lf_to_crlf_push(s: Seq<char>, c: char)
    ensures
        lf_to_crlf(s.push(c)) == lf_to_crlf(s) + (if c == '\n' {
            seq!['\r', '\n']
        } else {
            seq![c]
        }),
    decreases s.len(),
{
    let piece = if c == '\n' {
        seq!['\r', '\n']
    } else {
        seq![c]
    };
    if s.len() == 0 {
        assert(s.push(c).skip(1) =~= Seq::<char>::empty());
        assert(lf_to_crlf(s.push(c)) =~= piece + lf_to_crlf(Seq::<char>::empty()));
        assert(lf_to_crlf(s.push(c)) =~= lf_to_crlf(s) + piece);
    } else {
        assert(s.push(c).skip(1) =~= s.skip(1).push(c));
        lemma_lf_to_crlf_push(s.skip(1), c);
        let head = if s[0] == '\n' {
            seq!['\r', '\n']
        } else {
            seq![s[0]]
        };
        assert(lf_to_crlf(s.push(c)) == head + lf_to_crlf(s.skip(1).push(c)));
        assert(lf_to_crlf(s) == head + lf_to_crlf(s.skip(1)));
        assert(lf_to_crlf(s.push(c)) =~= lf_to_crlf(s) + piece);
    }
}

/// Turning line feeds into CRLF pairs and back gives the text back.
proof fn lemma_crlf_undoes_lf(s: Seq<char>)
    ensures
        crlf_to_lf(lf_to_crlf(s)) == s,
    decreases s.len(),
{
    if s.len() > 0 {
        lemma_crlf_undoes_lf(s.skip(1));
        lemma_lf_to_crlf_head(s.skip(1));
        let t = lf_to_crlf(s);
        if s[0] == '\n' {
            assert(t.skip(2) =~= lf_to_crlf(s.skip(1)));
        } else {
            assert(t.skip(1) =~= lf_to_crlf(s.skip(1)));
        }
        assert(s =~= seq![s[0]] + s.skip(1));
    }
}

proof fn lemma_encode_concat(a: Seq<char>, b: Seq<char>)
    ensures
        vstd::utf8::encode_utf8(a + b) == vstd::utf8::encode_utf8(a) + vstd::utf8::encode_utf8(b),
    decreases a.len(),
{
    if a.len() > 0 {
        assert((a + b).drop_first() =~= a.drop_first() + b);
        lemma_encode_concat(a.drop_first(), b);
        assert(vstd::utf8::encode_utf8(a + b) =~= vstd::utf8::encode_utf8(a) + vstd::utf8::encode_utf8(
            b,
        ));
    }
}

/// Text written as `CF_TEXT` reads back as the same text, unless the text
/// itself ends in NUL characters (those are taken for the terminator).
pub proof fn lemma_ansi_roundtrip(text: Seq<char>)
    requires
        text.len() == 0 || text.last() != '\0',
    ensures
        valid_utf8(spec_ansi_bytes(text)),
        crlf_to_lf(trim_trailing_nul(decode_utf8(spec_ansi_bytes(text)))) == text,
{
    broadcast use vstd::utf8::group_utf8_lib;

    let w = lf_to_crlf(text);
    let nul = seq!['\0'];
    lemma_encode_concat(w, nul);
    assert(vstd::utf8::encode_utf8(nul) =~= seq![0u8]) by {
        assert(nul.drop_first() =~= Seq::<char>::empty());
        let z: u32 = '\0' as u32;
        assert(z == 0);
        assert((z & 0x7F) as u8 == 0) by (bit_vector)
            requires
                z == 0,
        ;
        assert(vstd::utf8::has_width_1_encoding(z));
        assert(vstd::utf8::encode_scalar(z) =~= seq![0u8]);
        assert(vstd::utf8::encode_utf8(nul) == vstd::utf8::encode_scalar(nul[0] as u32)
            + vstd::utf8::encode_utf8(nul.drop_first()));
    }
    assert(spec_ansi_bytes(text) =~= vstd::utf8::encode_utf8(w + nul));
    assert(w + nul =~= w.push('\0'));
    if text.len() > 0 {
        assert(text =~= text.drop_last().push(text.last()));
        lemma_lf_to_crlf_push(text.drop_last(), text.last());
    }
    assert(w.push('\0').drop_last() =~= w);
    assert(trim_trailing_nul(w.push('\0')) == trim_trailing_nul(w));
    lemma_crlf_undoes_lf(text);
}

/// The text of decoded `CF_TEXT` data: without trailing NULs, with CRLF
/// line ends turned into LF.
pub fn text_from_decoded(decoded: &str) -> (text: String)
    ensures
        text@ == crlf_to_lf(trim_trailing_nul(decoded@)),
{
    let mut chars = chars_of(decoded);
    while chars.len() > 0 && chars[chars.len() - 1] == '\0'
        invariant
            trim_trailing_nul(chars@) == trim_trailing_nul(decoded@),
        decreases chars@.len(),
    {
        chars.pop();
    }
    let text = replace_crlf(&chars);
    string_of(text.as_slice())
}

/// Decodes arriving `CF_TEXT` bytes: UTF-8 (lossy) without trailing NULs, with
/// CRLF line ends turned into LF.
pub fn ansi_text(bytes: &[u8]) -> (text: String)
    ensures
        text@ == spec_ansi_text(bytes@),
        valid_utf8(bytes@) ==> text@ == crlf_to_lf(trim_trailing_nul(decode_utf8(bytes@))),
{
    let decoded = utf8_lossy(bytes);
    text_from_decoded(decoded.as_str())
}

/// The fetch priority among offered local formats.
pub open spec fn offer_priority() -> Seq<u32> {
    seq![CF_UNICODETEXT, CF_TEXT, CF_DIB, CF_DIBV5]
}

fn first_index(locals: &Vec<u32>, id: u32) -> (r: Option<usize>)
    ensures
        match r {
            Some(j) => j < locals@.len() && locals@[j as int] == id && forall|k: int|
                0 <= k < j ==> locals@[k] != id,
            None => !locals@.contains(id),
        },
{
    let mut j: usize = 0;
    while j < locals.len()
        invariant
            j <= locals@.len(),
            forall|k: int| 0 <= k < j ==> locals@[k] != id,
        decreases locals@.len() - j,
    {
        if locals[j] == id {
            return Some(j);
        }
        j += 1;
    }
    None
}

/// Chooses the offered link to fetch now, by local format id: the first link
/// with the most preferred format that any link has.
pub fn select_offer(locals: &Vec<u32>) -> (r: Option<usize>)
    ensures
        match r {
            Some(j) => j < locals@.len() && exists|p: int|
                0 <= p < 4 && locals@[j as int] == offer_priority()[p] && (forall|q: int|
                    0 <= q < p ==> !locals@.contains(#[trigger] offer_priority()[q])) && (forall|
                    k: int,
                | 0 <= k < j ==> locals@[k] != locals@[j as int]),
            None => !locals@.contains(CF_UNICODETEXT) && !locals@.contains(CF_TEXT)
                && !locals@.contains(CF_DIB) && !locals@.contains(CF_DIBV5),
        },
{
    let ghost priority = offer_priority();
    match first_index(locals, CF_UNICODETEXT) {
        Some(j) => {
            assert(locals@[j as int] == priority[0]);
            return Some(j);
        },
        None => {},
    }
    match first_index(locals, CF_TEXT) {
        Some(j) => {
            assert(locals@[j as int] == priority[1]);
            assert(forall|q: int| 0 <= q < 1 ==> !locals@.contains(#[trigger] priority[q]));
            return Some(j);
        },
        None => {},
    }
    match first_index(locals, CF_DIB) {
        Some(j) => {
            assert(locals@[j as int] == priority[2]);
            assert(forall|q: int| 0 <= q < 2 ==> !locals@.contains(#[trigger] priority[q]));
            return Some(j);
        },
        None => {},
    }
    match first_index(locals, CF_DIBV5) {
        Some(j) => {
            assert(locals@[j as int] == priority[3]);
            assert(forall|q: int| 0 <= q < 3 ==> !locals@.contains(#[trigger] priority[q]));
            Some(j)
        },
        None => None,
    }
}

/// The published wire format answering a data request: the first whose id
/// matches and whose name matches unless the request names none.
pub fn find_published(wire: &Vec<(u32, String)>, id: u32, name: &str) -> (r: Option<usize>)
    ensures
        match r {
            Some(j) => j < wire@.len() && wire@[j as int].0 == id && (name@.len() == 0
                || wire@[j as int].1@ == name@) && forall|k: int|
                0 <= k < j ==> !(wire@[k].0 == id && (name@.len() == 0 || wire@[k].1@ == name@)),
            None => forall|k: int|
                0 <= k < wire@.len() ==> !(wire@[k].0 == id && (name@.len() == 0 || wire@[k].1@
                    == name@)),
        },
{
    let any_name = name.is_empty();
    let mut j: usize = 0;
    while j < wire.len()
        invariant
            j <= wire@.len(),
            any_name == (name@.len() == 0),
            forall|k: int|
                0 <= k < j ==> !(wire@[k].0 == id && (name@.len() == 0 || wire@[k].1@ == name@)),
        decreases wire@.len() - j,
    {
        let entry = &wire[j];
        if entry.0 == id && (any_name || str_eq(entry.1.as_str(), name)) {
            return Some(j);
        }
        j += 1;
    }
    None
}

} // verus!
