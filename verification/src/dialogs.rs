//! Dialog actions and header icons shared by the message and form dialogs,
//! and the reconnect countdown of the remote-update dialog.
use crate::text::{push_decimal, spec_decimal, string_of};
use vstd::prelude::*;

verus! {

/// The glyph painted in a dialog header.
#[derive(Clone, Copy, Debug, PartialEq, Eq, Structural)]
pub enum DialogIcon {
    Required,
    Waiting,
    Error,
    Ready,
    Warning,
    Info,
    Edit,
    Files,
}

/// The theme colour a header glyph is drawn in.
#[derive(Clone, Copy, Debug, PartialEq, Eq, Structural)]
pub enum IconTone {
    Amber,
    Red,
    Accent,
}

pub open spec fn spec_tone(icon: DialogIcon) -> IconTone {
    match icon {
        DialogIcon::Required | DialogIcon::Warning => IconTone::Amber,
        DialogIcon::Error => IconTone::Red,
        _ => IconTone::Accent,
    }
}

impl DialogIcon {
    /// Required and warning glyphs are amber, errors red, the rest accent.
    pub fn tone(self) -> (t: IconTone)
        ensures
            t == spec_tone(self),
    {
        match self {
            DialogIcon::Required | DialogIcon::Warning => IconTone::Amber,
            DialogIcon::Error => IconTone::Red,
            _ => IconTone::Accent,
        }
    }
}

/// The primary button of a dialog: its label, whether it can be pressed and
/// whether it is drawn as a destructive action.
pub struct DialogAction<'a> {
    label: &'a str,
    enabled: bool,
    danger: bool,
}

impl<'a> DialogAction<'a> {
    pub closed spec fn spec_label(&self) -> Seq<char> {
        self.label@
    }

    pub closed spec fn spec_enabled(&self) -> bool {
        self.enabled
    }

    pub closed spec fn spec_danger(&self) -> bool {
        self.danger
    }

    /// An enabled, non-destructive action with this label.
    pub fn new(label: &'a str) -> (a: Self)
        ensures
            a.spec_label() == label@,
            a.spec_enabled(),
            !a.spec_danger(),
    {
        Self { label, enabled: true, danger: false }
    }

    pub fn enabled(self, enabled: bool) -> (a: Self)
        ensures
            a.spec_label() == self.spec_label(),
            a.spec_enabled() == enabled,
            a.spec_danger() == self.spec_danger(),
    {
        let mut a = self;
        a.enabled = enabled;
        a
    }

    pub fn danger(self, danger: bool) -> (a: Self)
        ensures
            a.spec_label() == self.spec_label(),
            a.spec_enabled() == self.spec_enabled(),
            a.spec_danger() == danger,
    {
        let mut a = self;
        a.danger = danger;
        a
    }

    pub fn label(&self) -> (l: &'a str)
        ensures
            l@ == self.spec_label(),
    {
        self.label
    }

    pub fn is_enabled(&self) -> (b: bool)
        ensures
            b == self.spec_enabled(),
    {
        self.enabled
    }

    pub fn is_danger(&self) -> (b: bool)
        ensures
            b == self.spec_danger(),
    {
        self.danger
    }
}

/// `"{seconds} 秒"`, the countdown shown before reconnecting after a remote
/// update.
pub fn countdown_caption(seconds: u64) -> (s: String)
    ensures
        s@ == spec_decimal(seconds as nat) + seq![' ', '秒'],
{
    let mut v: Vec<char> = Vec::new();
    push_decimal(&mut v, seconds);
    v.push(' ');
    v.push('秒');
    assert(v@ =~= spec_decimal(seconds as nat) + seq![' ', '秒']);
    string_of(v.as_slice())
}

} // verus!
