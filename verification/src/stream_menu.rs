//! Decisions of the viewer's stream settings window: page titles, the
//! speaker glyph, the position of a bitrate on the custom-bitrate slider, and
//! the window's own state as quality rows, "back", requests and format
//! confirmations change it.
use crate::text::{chars_of, push_decimal, push_str, spec_decimal, string_of};
use vstd::prelude::*;

verus! {

/// The pages of the stream settings window.
#[derive(Clone, Copy, Debug, PartialEq, Eq, Structural)]
pub enum Page {
    Quality,
    Custom,
    Mouse,
    Display,
}

pub open spec fn spec_title(page: Page) -> Seq<char> {
    match page {
        Page::Quality => seq!['画', '质'],
        Page::Custom => seq!['自', '定', '义', '码', '率'],
        Page::Mouse => seq!['鼠', '标', '模', '式'],
        Page::Display => seq!['显', '示', '设', '置'],
    }
}

/// The window opens on the quality page.
impl Default for Page {
    fn default() -> (p: Page)
        ensures
            p == Page::Quality,
    {
        Page::Quality
    }
}

impl Page {
    pub fn title(self) -> (t: &'static str)
        ensures
            t@ == spec_title(self),
    {
        match self {
            Page::Quality => {
                let t = "画质";
                proof {
                    reveal_strlit("画质");
                }
                assert(t@ =~= spec_title(self));
                t
            },
            Page::Custom => {
                let t = "自定义码率";
                proof {
                    reveal_strlit("自定义码率");
                }
                assert(t@ =~= spec_title(self));
                t
            },
            Page::Mouse => {
                let t = "鼠标模式";
                proof {
                    reveal_strlit("鼠标模式");
                }
                assert(t@ =~= spec_title(self));
                t
            },
            Page::Display => {
                let t = "显示设置";
                proof {
                    reveal_strlit("显示设置");
                }
                assert(t@ =~= spec_title(self));
                t
            },
        }
    }
}

/// `" · 全部屏幕"`, appended to the title when settings apply to every screen.
pub open spec fn all_screens_suffix() -> Seq<char> {
    seq![' ', '·', ' ', '全', '部', '屏', '幕']
}

/// The window heading: the display page names itself; other pages say that
/// they apply to all screens when the remote has several.
pub open spec fn spec_heading(page: Page, multi_screen: bool) -> Seq<char> {
    if page == Page::Display {
        spec_title(Page::Display)
    } else if multi_screen {
        spec_title(page) + all_screens_suffix()
    } else {
        spec_title(page)
    }
}

pub fn heading(page: Page, multi_screen: bool) -> (h: String)
    ensures
        h@ == spec_heading(page, multi_screen),
{
    if page == Page::Display {
        return string_of(chars_of(Page::Display.title()).as_slice());
    }
    let mut v = chars_of(page.title());
    if multi_screen {
        let suffix = " · 全部屏幕";
        proof {
            reveal_strlit(" · 全部屏幕");
        }
        let ghost head = v@;
        push_str(&mut v, suffix);
        assert(v@ =~= head + suffix@);
        assert(suffix@ =~= all_screens_suffix());
    }
    string_of(v.as_slice())
}

/// How many sound waves the speaker glyph shows: none when muted or silent,
/// then one, two or three by thirds of the volume.
pub open spec fn spec_speaker_stage(volume: u8, muted: bool) -> u8 {
    if muted || volume == 0 {
        0
    } else if volume <= 33 {
        1
    } else if volume <= 66 {
        2
    } else {
        3
    }
}

pub fn speaker_stage(volume: u8, muted: bool) -> (s: u8)
    ensures
        s == spec_speaker_stage(volume, muted),
{
    if muted || volume == 0 {
        0
    } else if volume <= 33 {
        1
    } else if volume <= 66 {
        2
    } else {
        3
    }
}

/// The slider position for `value`: the last choice not above it, or the
/// first position when every choice is above it.
pub fn bitrate_index(choices: &[u32], value: u32) -> (i: usize)
    ensures
        choices@.len() > 0 ==> i < choices@.len(),
        (exists|k: int| 0 <= k < choices@.len() && choices@[k] <= value) ==> choices@[i as int]
            <= value && forall|k: int| i < k < choices@.len() ==> choices@[k] > value,
        !(exists|k: int| 0 <= k < choices@.len() && choices@[k] <= value) ==> i == 0,
{
    let mut k: usize = choices.len();
    while k > 0
        invariant
            k <= choices@.len(),
            forall|x: int| k <= x < choices@.len() ==> choices@[x] > value,
        decreases k,
    {
        if choices[k - 1] <= value {
            return k - 1;
        }
        k -= 1;
    }
    0
}

/// `"{value}/{limit} Mbps"`, the caption over the custom-bitrate slider.
pub fn bitrate_caption(value: u32, limit: u32) -> (s: String)
    ensures
        s@ == spec_decimal(value as nat) + seq!['/'] + spec_decimal(limit as nat) + seq![
            ' ',
            'M',
            'b',
            'p',
            's',
        ],
{
    let mut v: Vec<char> = Vec::new();
    push_decimal(&mut v, value as u64);
    v.push('/');
    push_decimal(&mut v, limit as u64);
    v.push(' ');
    v.push('M');
    v.push('b');
    v.push('p');
    v.push('s');
    assert(v@ =~= spec_decimal(value as nat) + seq!['/'] + spec_decimal(limit as nat) + seq![
        ' ',
        'M',
        'b',
        'p',
        's',
    ]);
    string_of(v.as_slice())
}

/// `"{n} Mbps"` for the custom quality row, with the custom bitrate capped
/// at the remote's limit.
pub fn custom_detail(custom: u32, limit: u32) -> (s: String)
    ensures
        s@ == spec_decimal((if custom <= limit {
            custom
        } else {
            limit
        }) as nat) + seq![' ', 'M', 'b', 'p', 's'],
{
    let n: u32 = if custom <= limit {
        custom
    } else {
        limit
    };
    let mut v: Vec<char> = Vec::new();
    push_decimal(&mut v, n as u64);
    v.push(' ');
    v.push('M');
    v.push('b');
    v.push('p');
    v.push('s');
    assert(v@ =~= spec_decimal(n as nat) + seq![' ', 'M', 'b', 'p', 's']);
    string_of(v.as_slice())
}

/// The quality presets a remote offers.
#[derive(Clone, Copy, Debug, PartialEq, Eq, Structural)]
pub enum StreamQuality {
    Auto,
    Original,
    High,
    Clear,
    Custom,
}

/// The stream settings the window reads and edits; `frame_rate` is the
/// chosen frame rate by the number it stands for.
#[derive(Clone, Copy, Debug, PartialEq, Eq, Structural)]
pub struct StreamSettings {
    pub quality: StreamQuality,
    pub custom_bitrate_mbps: u32,
    pub frame_rate: u32,
    pub true_color: bool,
    pub hdr: bool,
}

/// The mouse modes of a remote session.
#[derive(Clone, Copy, Debug, PartialEq, Eq, Structural)]
pub enum MouseMode {
    Smart,
    View,
    Remote,
    Local,
}

/// The stream settings window between frames: whether it is open, the page
/// shown, the settings being edited, whether they differ from what was last
/// applied, the error of the last local request, and a format change waiting
/// for confirmation (target screen and proposed settings).
pub struct StreamControlUi {
    pub open: bool,
    pub page: Page,
    pub settings: Option<StreamSettings>,
    pub dirty: bool,
    pub local_error: Option<String>,
    pub format_confirm: Option<(i32, StreamSettings)>,
}

/// The state of a window that is not open: back on the quality page, with no
/// edit, error or pending confirmation.
pub open spec fn reset_state(s: StreamControlUi) -> StreamControlUi {
    StreamControlUi {
        open: s.open,
        page: Page::Quality,
        settings: None,
        dirty: false,
        local_error: None,
        format_confirm: None,
    }
}

/// The settings the window shows: its own edit while changes are unapplied
/// or the last request failed, else the remote's `current` settings.
pub open spec fn shown_settings(s: StreamControlUi, current: StreamSettings) -> StreamSettings {
    if !s.dirty && s.local_error is None {
        current
    } else {
        match s.settings {
            Some(edit) => edit,
            None => current,
        }
    }
}

/// The settings with the custom quality chosen and the custom bitrate capped
/// at the remote's `limit`.
pub open spec fn custom_chosen(settings: StreamSettings, limit: u32) -> StreamSettings {
    StreamSettings {
        quality: StreamQuality::Custom,
        custom_bitrate_mbps: if settings.custom_bitrate_mbps <= limit {
            settings.custom_bitrate_mbps
        } else {
            limit
        },
        frame_rate: settings.frame_rate,
        true_color: settings.true_color,
        hdr: settings.hdr,
    }
}

/// A click on a quality row. The custom row opens the custom-bitrate page
/// and applies nothing; another row applies its preset when it differs from
/// the edited one, or when a previous request failed (`failed`) so that it
/// can be retried. Gives the new state, the new edited settings and whether
/// to apply them.
pub open spec fn quality_clicked(
    s: StreamControlUi,
    settings: StreamSettings,
    quality: StreamQuality,
    current: StreamSettings,
    limit: u32,
    failed: bool,
) -> (StreamControlUi, StreamSettings, bool) {
    if quality == StreamQuality::Custom {
        let edit = custom_chosen(settings, limit);
        (
            StreamControlUi {
                open: s.open,
                page: Page::Custom,
                settings: s.settings,
                dirty: edit != current,
                local_error: s.local_error,
                format_confirm: s.format_confirm,
            },
            edit,
            false,
        )
    } else if settings.quality != quality || s.local_error is Some || failed {
        (s, StreamSettings { quality, ..settings }, true)
    } else {
        (s, settings, false)
    }
}

/// The state after "back": the quality page, with the unapplied edit and the
/// last local error dropped.
pub open spec fn backed(s: StreamControlUi) -> StreamControlUi {
    StreamControlUi {
        open: s.open,
        page: Page::Quality,
        settings: s.settings,
        dirty: false,
        local_error: None,
        format_confirm: s.format_confirm,
    }
}

/// The state after a request: success clears the edit flag and the error,
/// failure records the error.
pub open spec fn finished(s: StreamControlUi, result: Result<u64, String>) -> StreamControlUi {
    match result {
        Ok(_) => StreamControlUi {
            open: s.open,
            page: s.page,
            settings: s.settings,
            dirty: false,
            local_error: None,
            format_confirm: s.format_confirm,
        },
        Err(e) => StreamControlUi {
            open: s.open,
            page: s.page,
            settings: s.settings,
            dirty: s.dirty,
            local_error: Some(e),
            format_confirm: s.format_confirm,
        },
    }
}

/// Whether a proposed format change alters more than the user asked for: the
/// quality, or the other of chroma sampling and HDR.
pub open spec fn spec_needs_confirmation(
    proposed: StreamSettings,
    current: StreamSettings,
    hdr_change: bool,
) -> bool {
    ||| proposed.quality != current.quality
    ||| (hdr_change && proposed.true_color != current.true_color)
    ||| (!hdr_change && proposed.hdr != current.hdr)
}

/// Whether the apply button of the custom page is enabled.
pub open spec fn spec_can_apply(s: StreamControlUi, failed: bool) -> bool {
    s.dirty || s.local_error is Some || failed
}

impl Default for StreamControlUi {
    fn default() -> (s: StreamControlUi)
        ensures
            !s.open,
            s.page == Page::Quality,
            s.settings is None,
            !s.dirty,
            s.local_error is None,
            s.format_confirm is None,
    {
        StreamControlUi {
            open: false,
            page: Page::Quality,
            settings: None,
            dirty: false,
            local_error: None,
            format_confirm: None,
        }
    }
}

impl StreamControlUi {
    /// Forgets the page, edit, error and pending confirmation of a window
    /// that is not open.
    pub fn reset(&mut self)
        ensures
            *final(self) == reset_state(*old(self)),
    {
        self.page = Page::Quality;
        self.settings = None;
        self.dirty = false;
        self.local_error = None;
        self.format_confirm = None;
    }

    /// The settings the window works on this frame.
    pub fn working_settings(&self, current: StreamSettings) -> (w: StreamSettings)
        ensures
            w == shown_settings(*self, current),
    {
        if !self.dirty && self.local_error.is_none() {
            current
        } else {
            match self.settings {
                Some(edit) => edit,
                None => current,
            }
        }
    }

    /// Handles a click on a quality row; returns whether to apply `settings`.
    pub fn click_quality(
        &mut self,
        settings: &mut StreamSettings,
        quality: StreamQuality,
        current: StreamSettings,
        limit: u32,
        failed: bool,
    ) -> (apply: bool)
        ensures
            (*final(self), *final(settings), apply) == quality_clicked(
                *old(self),
                *old(settings),
                quality,
                current,
                limit,
                failed,
            ),
    {
        if quality == StreamQuality::Custom {
            self.page = Page::Custom;
            settings.quality = StreamQuality::Custom;
            if settings.custom_bitrate_mbps > limit {
                settings.custom_bitrate_mbps = limit;
            }
            self.dirty = *settings != current;
            false
        } else if settings.quality != quality || self.local_error.is_some() || failed {
            settings.quality = quality;
            true
        } else {
            false
        }
    }

    /// Records whether the custom-bitrate slider changed the edit.
    pub fn mark_edited(&mut self, changed: bool)
        ensures
            final(self).dirty == (old(self).dirty || changed),
            final(self).open == old(self).open,
            final(self).page == old(self).page,
            final(self).settings == old(self).settings,
            final(self).local_error == old(self).local_error,
            final(self).format_confirm == old(self).format_confirm,
    {
        self.dirty = self.dirty || changed;
    }

    /// Whether the custom page's apply button is enabled: there is an
    /// unapplied edit, or a request failed and may be retried.
    pub fn can_apply(&self, failed: bool) -> (b: bool)
        ensures
            b == spec_can_apply(*self, failed),
    {
        self.dirty || self.local_error.is_some() || failed
    }

    /// Goes back to the quality page, dropping the unapplied edit.
    pub fn go_back(&mut self)
        ensures
            *final(self) == backed(*old(self)),
    {
        self.page = Page::Quality;
        self.dirty = false;
        self.local_error = None;
    }

    /// Records the outcome of a request to the stream.
    pub fn finish(&mut self, result: Result<u64, String>)
        ensures
            *final(self) == finished(*old(self), result),
    {
        match result {
            Ok(_) => {
                self.local_error = None;
                self.dirty = false;
            },
            Err(e) => {
                self.local_error = Some(e);
            },
        }
    }

    /// A format change proposed by the stream for `screen`: one that alters
    /// more than asked waits for confirmation; otherwise it is applied at
    /// once (returns `true`).
    pub fn propose_format(
        &mut self,
        screen: i32,
        proposed: StreamSettings,
        current: StreamSettings,
        hdr_change: bool,
    ) -> (apply_now: bool)
        ensures
            apply_now == !spec_needs_confirmation(proposed, current, hdr_change),
            final(self).format_confirm == (if apply_now {
                old(self).format_confirm
            } else {
                Some((screen, proposed))
            }),
            final(self).open == old(self).open,
            final(self).page == old(self).page,
            final(self).settings == old(self).settings,
            final(self).dirty == old(self).dirty,
            final(self).local_error == old(self).local_error,
    {
        let extra = proposed.quality != current.quality || (hdr_change && proposed.true_color
            != current.true_color) || (!hdr_change && proposed.hdr != current.hdr);
        if extra {
            self.format_confirm = Some((screen, proposed));
        }
        !extra
    }

    /// The confirmation dialog was dismissed without applying.
    pub fn cancel_format(&mut self)
        ensures
            final(self).format_confirm is None,
            final(self).open == old(self).open,
            final(self).page == old(self).page,
            final(self).settings == old(self).settings,
            final(self).dirty == old(self).dirty,
            final(self).local_error == old(self).local_error,
    {
        self.format_confirm = None;
    }

    /// The confirmed format change was requested with `result`: its error
    /// (if any) is recorded, the dialog closes and the edit is dropped.
    pub fn format_applied(&mut self, result: Result<u64, String>)
        ensures
            final(self).format_confirm is None,
            !final(self).dirty,
            final(self).local_error == (match result {
                Ok(_) => None,
                Err(e) => Some(e),
            }),
            final(self).open == old(self).open,
            final(self).page == old(self).page,
            final(self).settings == old(self).settings,
    {
        self.local_error = match result {
            Ok(_) => None,
            Err(e) => Some(e),
        };
        self.format_confirm = None;
        self.dirty = false;
    }

    /// Ends the frame: keeps the settings worked on, and stays open unless
    /// the window was closed or its close button clicked.
    pub fn commit(&mut self, settings: StreamSettings, open: bool, close: bool)
        ensures
            final(self).settings == Some(settings),
            final(self).open == (open && !close),
            final(self).page == old(self).page,
            final(self).dirty == old(self).dirty,
            final(self).local_error == old(self).local_error,
            final(self).format_confirm == old(self).format_confirm,
    {
        self.settings = Some(settings);
        self.open = open && !close;
    }
}

/// Whether a quality row is enabled: the stream is ready, and the custom row
/// also needs a remote that supports custom bitrates.
pub fn quality_row_enabled(ready: bool, quality: StreamQuality, custom_supported: bool) -> (b: bool)
    ensures
        b == (ready && (quality != StreamQuality::Custom || custom_supported)),
{
    ready && (quality != StreamQuality::Custom || custom_supported)
}

/// Whether a format change alters more than the user asked for.
pub fn needs_confirmation(proposed: StreamSettings, current: StreamSettings, hdr_change: bool) -> (b:
    bool)
    ensures
        b == spec_needs_confirmation(proposed, current, hdr_change),
{
    proposed.quality != current.quality || (hdr_change && proposed.true_color != current.true_color)
        || (!hdr_change && proposed.hdr != current.hdr)
}

/// Whether the HDR switch is enabled: the stream is ready with no change in
/// flight, and HDR is on or not reported unavailable.
pub fn hdr_switch_enabled(ready: bool, pending: bool, hdr: bool, unavailable: bool) -> (b: bool)
    ensures
        b == (ready && !pending && (hdr || !unavailable)),
{
    ready && !pending && (hdr || !unavailable)
}

/// Whether "Ctrl+Alt+Del" can be sent: the stream is ready, no mouse-mode
/// change is in flight, input is not view-only, the remote takes keyboard
/// input and no key is still held.
pub fn can_send_secure_attention(
    ready: bool,
    mouse_pending: bool,
    mode: MouseMode,
    keyboard_supported: bool,
    waiting_for_neutral: bool,
) -> (b: bool)
    ensures
        b == (ready && !mouse_pending && mode != MouseMode::View && keyboard_supported
            && !waiting_for_neutral),
{
    ready && !mouse_pending && mode != MouseMode::View && keyboard_supported && !waiting_for_neutral
}

pub open spec fn spec_mouse_label(mode: MouseMode) -> Seq<char> {
    match mode {
        MouseMode::Smart | MouseMode::View => seq!['智', '能', '鼠', '标'],
        MouseMode::Remote => seq!['被', '控', '端', '鼠', '标'],
        MouseMode::Local => seq!['主', '控', '端', '鼠', '标'],
    }
}

/// The mouse mode named on the quality page; view-only counts as smart.
pub fn mouse_label(mode: MouseMode) -> (t: &'static str)
    ensures
        t@ == spec_mouse_label(mode),
{
    match mode {
        MouseMode::Smart | MouseMode::View => {
            let t = "智能鼠标";
            proof {
                reveal_strlit("智能鼠标");
            }
            assert(t@ =~= spec_mouse_label(mode));
            t
        },
        MouseMode::Remote => {
            let t = "被控端鼠标";
            proof {
                reveal_strlit("被控端鼠标");
            }
            assert(t@ =~= spec_mouse_label(mode));
            t
        },
        MouseMode::Local => {
            let t = "主控端鼠标";
            proof {
                reveal_strlit("主控端鼠标");
            }
            assert(t@ =~= spec_mouse_label(mode));
            t
        },
    }
}

/// What the stream reports that the window's status line reads.
pub struct StreamStatus {
    pub mouse_error: Option<String>,
    pub cursor_error: Option<String>,
    pub last_error: Option<String>,
    pub network_error: Option<String>,
    pub persistence_error: Option<String>,
    pub waiting_for: Option<String>,
    pub pending: bool,
}

/// The line under the settings: a request that did not take effect (with
/// its error as the hint), settings that were not saved, a stream that is
/// not ready yet (with what it waits for), a change in flight, or nothing.
#[derive(Debug, PartialEq, Eq)]
pub enum StatusLine {
    NotApplied(String),
    NotSaved(String),
    Waiting(String),
    Applying,
    Quiet,
}

/// The first error among the local one and those the stream reports, in
/// that order.
pub open spec fn first_error(local: Option<String>, st: StreamStatus) -> Option<String> {
    if local is Some {
        local
    } else if st.mouse_error is Some {
        st.mouse_error
    } else if st.cursor_error is Some {
        st.cursor_error
    } else if st.last_error is Some {
        st.last_error
    } else {
        st.network_error
    }
}

pub open spec fn spec_status_line(page: Page, local: Option<String>, st: StreamStatus) -> StatusLine {
    if page == Page::Display {
        StatusLine::Quiet
    } else if let Some(e) = first_error(local, st) {
        StatusLine::NotApplied(e)
    } else if let Some(e) = st.persistence_error {
        StatusLine::NotSaved(e)
    } else if let Some(w) = st.waiting_for {
        StatusLine::Waiting(w)
    } else if st.pending {
        StatusLine::Applying
    } else {
        StatusLine::Quiet
    }
}

fn copy_text(s: &String) -> (r: String)
    ensures
        r == *s,
{
    s.clone()
}

impl StreamControlUi {
    /// The status line of the current page; the display page has its own.
    pub fn status_line(&self, st: &StreamStatus) -> (l: StatusLine)
        ensures
            l == spec_status_line(self.page, self.local_error, *st),
    {
        if self.page == Page::Display {
            return StatusLine::Quiet;
        }
        if let Some(e) = &self.local_error {
            StatusLine::NotApplied(copy_text(e))
        } else if let Some(e) = &st.mouse_error {
            StatusLine::NotApplied(copy_text(e))
        } else if let Some(e) = &st.cursor_error {
            StatusLine::NotApplied(copy_text(e))
        } else if let Some(e) = &st.last_error {
            StatusLine::NotApplied(copy_text(e))
        } else if let Some(e) = &st.network_error {
            StatusLine::NotApplied(copy_text(e))
        } else if let Some(e) = &st.persistence_error {
            StatusLine::NotSaved(copy_text(e))
        } else if let Some(w) = &st.waiting_for {
            StatusLine::Waiting(copy_text(w))
        } else if st.pending {
            StatusLine::Applying
        } else {
            StatusLine::Quiet
        }
    }
}

/// A proposal needs confirmation exactly when it changes something the user
/// did not ask for: the quality, or HDR when the user changed chroma sampling,
/// or chroma sampling when the user changed HDR. A proposal that changes only
/// the requested setting (and the frame rate or bitrate) is applied at once.
pub proof fn lemma_confirmation_for_unrequested_changes(
    proposed: StreamSettings,
    current: StreamSettings,
    hdr_change: bool,
)
    ensures
        proposed.quality != current.quality ==> spec_needs_confirmation(
            proposed,
            current,
            hdr_change,
        ),
        !hdr_change && proposed.hdr != current.hdr ==> spec_needs_confirmation(
            proposed,
            current,
            hdr_change,
        ),
        hdr_change && proposed.true_color != current.true_color ==> spec_needs_confirmation(
            proposed,
            current,
            hdr_change,
        ),
        proposed.quality == current.quality && (if hdr_change {
            proposed.true_color == current.true_color
        } else {
            proposed.hdr == current.hdr
        }) ==> !spec_needs_confirmation(proposed, current, hdr_change),
{
}

/// A preset row applies exactly when its quality differs from the edited
/// one or a request failed; it then sets that quality and nothing else, and
/// it never changes the page, the edit flag or the error.
pub proof fn lemma_preset_row(
    s: StreamControlUi,
    settings: StreamSettings,
    quality: StreamQuality,
    current: StreamSettings,
    limit: u32,
    failed: bool,
)
    requires
        quality != StreamQuality::Custom,
    ensures
        ({
            let (s2, e2, apply) = quality_clicked(s, settings, quality, current, limit, failed);
            &&& apply <==> (settings.quality != quality || s.local_error is Some || failed)
            &&& e2.quality == (if apply {
                quality
            } else {
                settings.quality
            })
            &&& e2.custom_bitrate_mbps == settings.custom_bitrate_mbps
            &&& e2.frame_rate == settings.frame_rate
            &&& e2.true_color == settings.true_color
            &&& e2.hdr == settings.hdr
            &&& s2.page == s.page
            &&& s2.dirty == s.dirty
            &&& s2.local_error == s.local_error
            &&& s2.settings == s.settings
            &&& s2.open == s.open
        }),
{
}

/// The custom row keeps every setting but the quality (now custom) and the
/// bitrate (now the smaller of the edited one and the limit), and marks the
/// edit as unapplied exactly when it differs from the remote's settings.
pub proof fn lemma_custom_row_edit(
    s: StreamControlUi,
    settings: StreamSettings,
    current: StreamSettings,
    limit: u32,
    failed: bool,
)
    ensures
        ({
            let (s2, e2, apply) = quality_clicked(
                s,
                settings,
                StreamQuality::Custom,
                current,
                limit,
                failed,
            );
            &&& e2.quality == StreamQuality::Custom
            &&& e2.custom_bitrate_mbps <= settings.custom_bitrate_mbps
            &&& e2.custom_bitrate_mbps <= limit
            &&& (e2.custom_bitrate_mbps == settings.custom_bitrate_mbps
                || e2.custom_bitrate_mbps == limit)
            &&& e2.frame_rate == settings.frame_rate
            &&& e2.true_color == settings.true_color
            &&& e2.hdr == settings.hdr
            &&& (s2.dirty <==> e2 != current)
            &&& s2.local_error == s.local_error
            &&& !apply
        }),
{
}

/// The status line: nothing on the display page; otherwise the first error
/// (the local one before those the stream reports) when there is one, then
/// an unsaved setting, then what the stream waits for, then a change in
/// flight, else nothing.
pub proof fn lemma_status_line_order(page: Page, local: Option<String>, st: StreamStatus)
    ensures
        page == Page::Display ==> spec_status_line(page, local, st) == StatusLine::Quiet,
        page != Page::Display && local is Some ==> spec_status_line(page, local, st)
            == StatusLine::NotApplied(local->0),
        page != Page::Display && (local is Some || st.mouse_error is Some || st.cursor_error is Some
            || st.last_error is Some || st.network_error is Some) ==> spec_status_line(
            page,
            local,
            st,
        ) is NotApplied,
        page != Page::Display && local is None && st.mouse_error is None && st.cursor_error is None
            && st.last_error is None && st.network_error is None ==> {
            &&& st.persistence_error is Some ==> spec_status_line(page, local, st)
                == StatusLine::NotSaved(st.persistence_error->0)
            &&& st.persistence_error is None && st.waiting_for is Some ==> spec_status_line(
                page,
                local,
                st,
            ) == StatusLine::Waiting(st.waiting_for->0)
            &&& st.persistence_error is None && st.waiting_for is None ==> (spec_status_line(
                page,
                local,
                st,
            ) == if st.pending {
                StatusLine::Applying
            } else {
                StatusLine::Quiet
            })
        },
{
}

/// The speaker shows no waves when muted or at zero volume, at most three,
/// three exactly above two thirds, and never fewer waves for a louder
/// volume.
pub proof fn lemma_speaker_waves(v1: u8, v2: u8, muted: bool)
    ensures
        muted || v1 == 0 ==> spec_speaker_stage(v1, muted) == 0,
        !muted && v1 > 0 ==> spec_speaker_stage(v1, muted) >= 1,
        spec_speaker_stage(v1, muted) <= 3,
        spec_speaker_stage(v1, false) == 3 <==> v1 > 66,
        v1 <= v2 ==> spec_speaker_stage(v1, muted) <= spec_speaker_stage(v2, muted),
{
}

/// Reopening the window shows the remote's current settings: nothing of an
/// earlier session's edit survives closing.
pub proof fn lemma_reopen_shows_current(s: StreamControlUi, current: StreamSettings)
    ensures
        shown_settings(reset_state(s), current) == current,
        reset_state(s).page == Page::Quality,
{
}

/// "Back" cancels unapplied changes: the quality page then shows the
/// remote's current settings, and nothing is left to apply.
pub proof fn lemma_back_discards_edit(s: StreamControlUi, current: StreamSettings)
    ensures
        shown_settings(backed(s), current) == current,
        backed(s).page == Page::Quality,
        !spec_can_apply(backed(s), false),
{
}

/// After a successful request the window follows the remote again and has
/// nothing left to apply; after a failed one it keeps the edit and offers
/// to retry.
pub proof fn lemma_request_outcome(
    s: StreamControlUi,
    current: StreamSettings,
    sequence: u64,
    error: String,
)
    ensures
        shown_settings(finished(s, Ok(sequence)), current) == current,
        !spec_can_apply(finished(s, Ok(sequence)), false),
        spec_can_apply(finished(s, Err(error)), false),
        shown_settings(finished(s, Err(error)), current) == (match s.settings {
            Some(edit) => edit,
            None => current,
        }),
{
}

/// Choosing the custom quality never applies anything by itself, and the
/// edited bitrate never exceeds the remote's limit.
pub proof fn lemma_custom_row_only_edits(
    s: StreamControlUi,
    settings: StreamSettings,
    current: StreamSettings,
    limit: u32,
    failed: bool,
)
    ensures
        !quality_clicked(s, settings, StreamQuality::Custom, current, limit, failed).2,
        quality_clicked(s, settings, StreamQuality::Custom, current, limit, failed).1.custom_bitrate_mbps
            <= limit,
        quality_clicked(s, settings, StreamQuality::Custom, current, limit, failed).0.page
            == Page::Custom,
{
}

} // verus!
