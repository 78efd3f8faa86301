//! Decisions of the table rows: the kind of a remote file by its extension,
//! the service column and the action of a port-mapping row.
use crate::text::chars_of;
use vstd::prelude::*;

verus! {

/// What a file row's small mark shows.
#[derive(Clone, Copy, Debug, PartialEq, Eq, Structural)]
pub enum FileKind {
    Image,
    Media,
    Other,
}

/// `c` with ASCII upper-case letters lowered, as `to_ascii_lowercase` does.
pub open spec fn ascii_lower(c: char) -> char {
    if 'A' <= c <= 'Z' {
        ((c as u32) + 32) as char
    } else {
        c
    }
}

/// What follows the last `'.'` of `name` (all of it without a dot).
pub open spec fn extension(name: Seq<char>) -> Seq<char>
    decreases name.len(),
{
    if name.len() == 0 {
        name
    } else if name.last() == '.' {
        Seq::empty()
    } else {
        extension(name.drop_last()).push(name.last())
    }
}

pub open spec fn lowered(s: Seq<char>) -> Seq<char> {
    Seq::new(s.len(), |i: int| ascii_lower(s[i]))
}

pub open spec fn image_extension(e: Seq<char>) -> bool {
    e == "png"@ || e == "jpg"@ || e == "jpeg"@ || e == "bmp"@ || e == "webp"@ || e == "gif"@
}

pub open spec fn media_extension(e: Seq<char>) -> bool {
    e == "mp4"@ || e == "mkv"@ || e == "mov"@ || e == "avi"@ || e == "mp3"@ || e == "wav"@ || e
        == "flac"@
}

pub open spec fn spec_file_kind(name: Seq<char>) -> FileKind {
    let e = lowered(extension(name));
    if image_extension(e) {
        FileKind::Image
    } else if media_extension(e) {
        FileKind::Media
    } else {
        FileKind::Other
    }
}

fn lower_char(c: char) -> (r: char)
    ensures
        r == ascii_lower(c),
{
    if 'A' <= c && c <= 'Z' {
        ((c as u8) + 32) as char
    } else {
        c
    }
}

fn chars_eq(a: &Vec<char>, b: &str) -> (r: bool)
    ensures
        r == (a@ == b@),
{
    let v = chars_of(b);
    if a.len() != v.len() {
        return false;
    }
    let mut i: usize = 0;
    while i < a.len()
        invariant
            i <= a@.len(),
            a@.len() == v@.len(),
            v@ == b@,
            forall|k: int| 0 <= k < i ==> a@[k] == v@[k],
        decreases a@.len() - i,
    {
        if a[i] != v[i] {
            return false;
        }
        i += 1;
    }
    assert(a@ =~= v@);
    true
}

/// The mark of a file row by the file's extension, in any letter case.
pub fn file_kind(name: &str) -> (k: FileKind)
    ensures
        k == spec_file_kind(name@),
{
    let chars = chars_of(name);
    let n = chars.len();
    let mut start: usize = n;
    assert(chars@.take(n as int) =~= chars@);
    assert(extension(chars@) + chars@.subrange(n as int, n as int) =~= extension(chars@));
    while start > 0 && chars[start - 1] != '.'
        invariant
            start <= n,
            n == chars@.len(),
            extension(chars@) == extension(chars@.take(start as int)) + chars@.subrange(
                start as int,
                n as int,
            ),
        decreases start,
    {
        let ghost t = chars@.take(start as int);
        assert(t.drop_last() =~= chars@.take(start - 1));
        assert(chars@.subrange(start - 1, n as int) =~= seq![t.last()] + chars@.subrange(
            start as int,
            n as int,
        ));
        assert(extension(t) == extension(t.drop_last()).push(t.last()));
        assert(extension(t) + chars@.subrange(start as int, n as int) =~= extension(t.drop_last())
            + chars@.subrange(start - 1, n as int));
        start -= 1;
    }
    proof {
        let t = chars@.take(start as int);
        if start > 0 {
            assert(t.last() == '.');
        }
        assert(extension(t) =~= Seq::<char>::empty());
        assert(chars@.take(n as int) =~= chars@);
    }
    let mut ext: Vec<char> = Vec::new();
    let mut i: usize = start;
    while i < n
        invariant
            start <= i <= n,
            n == chars@.len(),
            ext@ =~= lowered(chars@.subrange(start as int, i as int)),
        decreases n - i,
    {
        ext.push(lower_char(chars[i]));
        i += 1;
    }
    assert(ext@ =~= lowered(extension(name@)));
    if chars_eq(&ext, "png") || chars_eq(&ext, "jpg") || chars_eq(&ext, "jpeg") || chars_eq(
        &ext,
        "bmp",
    ) || chars_eq(&ext, "webp") || chars_eq(&ext, "gif") {
        FileKind::Image
    } else if chars_eq(&ext, "mp4") || chars_eq(&ext, "mkv") || chars_eq(&ext, "mov") || chars_eq(
        &ext,
        "avi",
    ) || chars_eq(&ext, "mp3") || chars_eq(&ext, "wav") || chars_eq(&ext, "flac") {
        FileKind::Media
    } else {
        FileKind::Other
    }
}

/// What the service column of a mapping row says about the target.
#[derive(Clone, Copy, Debug, PartialEq, Eq, Structural)]
pub enum ServiceHint {
    /// An HTTP service that the row links to.
    Http,
    /// Reachable over TCP, not recognised as HTTP.
    Tcp,
    /// Not probed yet, or unreachable.
    Unknown,
}

/// The colour of the service glyph.
#[derive(Clone, Copy, Debug, PartialEq, Eq, Structural)]
pub enum ServiceTone {
    Accent,
    Red,
    Muted,
}

/// The hint of the service column: HTTP where a link is known, TCP where the
/// target answered.
pub fn service_hint(has_url: bool, reachable: Option<bool>) -> (h: ServiceHint)
    ensures
        h == (if has_url {
            ServiceHint::Http
        } else if reachable == Some(true) {
            ServiceHint::Tcp
        } else {
            ServiceHint::Unknown
        }),
{
    if has_url {
        ServiceHint::Http
    } else if reachable == Some(true) {
        ServiceHint::Tcp
    } else {
        ServiceHint::Unknown
    }
}

/// The glyph is accented for a linked service and red for an unreachable one.
pub fn service_tone(has_url: bool, reachable: Option<bool>) -> (t: ServiceTone)
    ensures
        t == (if has_url {
            ServiceTone::Accent
        } else if reachable == Some(false) {
            ServiceTone::Red
        } else {
            ServiceTone::Muted
        }),
{
    if has_url {
        ServiceTone::Accent
    } else if reachable == Some(false) {
        ServiceTone::Red
    } else {
        ServiceTone::Muted
    }
}

/// The second status line: `"探测中…"` while probing, else the row's detail.
pub fn status_detail<'a>(probing: bool, detail: &'a str) -> (d: &'a str)
    ensures
        d@ == (if probing {
            "探测中…"@
        } else {
            detail@
        }),
{
    if probing {
        "探测中…"
    } else {
        detail
    }
}

/// What the user did on a mapping row.
#[derive(Clone, Copy, Debug, PartialEq, Eq, Structural)]
pub enum RowAction {
    Nothing,
    Enable(bool),
    Probe,
    Edit,
    Delete,
}

/// The action of a row when several controls report at once: deleting wins
/// over editing, editing over switching, switching over probing.
pub fn row_action(probe: bool, switched: Option<bool>, edit: bool, delete: bool) -> (a: RowAction)
    ensures
        a == (if delete {
            RowAction::Delete
        } else if edit {
            RowAction::Edit
        } else if switched is Some {
            RowAction::Enable(switched->0)
        } else if probe {
            RowAction::Probe
        } else {
            RowAction::Nothing
        }),
{
    let mut action = if probe {
        RowAction::Probe
    } else {
        RowAction::Nothing
    };
    match switched {
        Some(enabled) => action = RowAction::Enable(enabled),
        None => {},
    }
    if edit {
        action = RowAction::Edit;
    }
    if delete {
        action = RowAction::Delete;
    }
    action
}

} // verus!
