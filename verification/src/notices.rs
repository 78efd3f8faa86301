//! Window-local operation messages: a queue of notices keyed by the operation
//! that raised them, shown one at a time in a modal dialog.
//!
//! The queue holds at most one notice per source. Publishing for a source that
//! is already queued rewrites that notice in place; observing repeats only
//! when the observed text changes; progress notices disappear on the first
//! frame in which their operation no longer reports them.
use crate::dialogs::DialogIcon;
use crate::text::{is_blank, str_eq, str_is_blank};
use std::collections::HashMap;
use vstd::prelude::*;
use vstd::std_specs::iter::IteratorSpec;

verus! {

broadcast use vstd::std_specs::hash::group_hash_axioms;

/// A UI layer: its paint order (as an index) and its id.
#[derive(Clone, Copy, Debug, PartialEq, Eq, Structural)]
pub struct LayerKey {
    pub order: u8,
    pub id: u64,
}

/// One queued message.
#[derive(Debug)]
pub struct Notice {
    pub source: u64,
    pub title: String,
    pub message: String,
    pub icon: DialogIcon,
    /// The label of the primary button; `None` shows the default label.
    pub action: Option<String>,
    /// Whether the choice made in the dialog is handed back to the source.
    pub report: bool,
    /// The form dialog this notice belongs to, if any.
    pub parent: Option<LayerKey>,
}

pub struct NoticeView {
    pub source: u64,
    pub title: Seq<char>,
    pub message: Seq<char>,
    pub icon: DialogIcon,
    pub action: Option<Seq<char>>,
    pub report: bool,
    pub parent: Option<LayerKey>,
}

pub open spec fn text_view(s: Option<String>) -> Option<Seq<char>> {
    match s {
        Some(t) => Some(t@),
        None => None,
    }
}

pub open spec fn str_view(s: Option<&str>) -> Option<Seq<char>> {
    match s {
        Some(t) => Some(t@),
        None => None,
    }
}

impl View for Notice {
    type V = NoticeView;

    open spec fn view(&self) -> NoticeView {
        NoticeView {
            source: self.source,
            title: self.title@,
            message: self.message@,
            icon: self.icon,
            action: text_view(self.action),
            report: self.report,
            parent: self.parent,
        }
    }
}

fn copy_text(s: &Option<String>) -> (r: Option<String>)
    ensures
        text_view(r) == text_view(*s),
{
    match s {
        Some(t) => Some(t.clone()),
        None => None,
    }
}

fn own_text(s: Option<&str>) -> (r: Option<String>)
    ensures
        text_view(r) == str_view(s),
{
    match s {
        Some(t) => Some(t.to_owned()),
        None => None,
    }
}

impl Notice {
    /// A copy of this notice.
    pub fn duplicate(&self) -> (n: Notice)
        ensures
            n@ == self@,
    {
        Notice {
            source: self.source,
            title: self.title.clone(),
            message: self.message.clone(),
            icon: self.icon,
            action: copy_text(&self.action),
            report: self.report,
            parent: self.parent,
        }
    }
}

/// All notices of one window, with what they were last observed as, the
/// choices made in reporting dialogs, and the frames in which progress
/// notices were last refreshed.
pub struct NoticeState {
    modal: u64,
    pending: Vec<Notice>,
    visible: Option<u64>,
    dialog: Option<(u64, LayerKey)>,
    observed: HashMap<u64, String>,
    results: HashMap<u64, bool>,
    progress: HashMap<u64, u64>,
}

pub struct NoticeModel {
    /// The layer id of the notice dialog itself.
    pub modal: u64,
    pub pending: Seq<NoticeView>,
    pub visible: Option<u64>,
    /// The form dialog registered last, with the frame it was registered in.
    pub dialog: Option<(u64, LayerKey)>,
    pub observed: Map<u64, Seq<char>>,
    pub results: Map<u64, bool>,
    pub progress: Map<u64, u64>,
}

impl View for NoticeState {
    type V = NoticeModel;

    closed spec fn view(&self) -> NoticeModel {
        NoticeModel {
            modal: self.modal,
            pending: self.pending@.map_values(|n: Notice| n@),
            visible: self.visible,
            dialog: self.dialog,
            observed: self.observed@.map_values(|s: String| s@),
            results: self.results@,
            progress: self.progress@,
        }
    }
}

/// No two queued notices share a source.
pub open spec fn unique_sources(p: Seq<NoticeView>) -> bool {
    forall|i: int, j: int|
        0 <= i < p.len() && 0 <= j < p.len() && i != j ==> #[trigger] p[i].source
            != #[trigger] p[j].source
}

pub open spec fn has_source(p: Seq<NoticeView>, source: u64) -> bool {
    exists|i: int| 0 <= i < p.len() && #[trigger] p[i].source == source
}

/// The position of the notice for `source` (meaningful when `has_source`).
pub open spec fn source_index(p: Seq<NoticeView>, source: u64) -> int {
    choose|i: int| 0 <= i < p.len() && #[trigger] p[i].source == source
}

/// The message text `"关闭提示"` labels the button that dismisses a progress notice.
pub open spec fn dismiss_label() -> Seq<char> {
    seq!['关', '闭', '提', '示']
}

/// The form dialog registered in `frame`, if any.
pub open spec fn active_dialog(m: NoticeModel, frame: u64) -> Option<LayerKey> {
    match m.dialog {
        Some((seen, layer)) => if seen == frame {
            Some(layer)
        } else {
            None
        },
        None => None,
    }
}

/// The form a new nested notice attaches to: the dialog registered in this
/// frame, else the top modal layer unless that is the notice dialog itself.
pub open spec fn notice_parent(
    m: NoticeModel,
    frame: u64,
    top_modal: Option<LayerKey>,
    nested: bool,
) -> Option<LayerKey> {
    if !nested {
        None
    } else {
        match active_dialog(m, frame) {
            Some(layer) => Some(layer),
            None => match top_modal {
                Some(layer) => if layer.id != m.modal {
                    Some(layer)
                } else {
                    None
                },
                None => None,
            },
        }
    }
}

/// The state after a notice is published. A blank message changes nothing;
/// a queued notice of the same source is rewritten in place (keeping its
/// place and parent); otherwise the notice joins the end of the queue.
pub open spec fn published(
    m: NoticeModel,
    frame: u64,
    top_modal: Option<LayerKey>,
    source: u64,
    title: Seq<char>,
    icon: DialogIcon,
    message: Seq<char>,
    action: Option<Seq<char>>,
    report: bool,
    nested: bool,
) -> NoticeModel {
    if is_blank(message) {
        m
    } else if has_source(m.pending, source) {
        let i = source_index(m.pending, source);
        let old = m.pending[i];
        NoticeModel {
            pending: m.pending.update(
                i,
                NoticeView { source, title, message, icon, action, report, parent: old.parent },
            ),
            ..m
        }
    } else {
        NoticeModel {
            pending: m.pending.push(
                NoticeView {
                    source,
                    title,
                    message,
                    icon,
                    action,
                    report,
                    parent: notice_parent(m, frame, top_modal, nested),
                },
            ),
            ..m
        }
    }
}


/// The state after `text` is observed for `source`. Text equal to what was
/// last observed changes nothing; new text is remembered and published;
/// a missing or blank text forgets what was observed, so the same text
/// observed later is published again.
pub open spec fn observed(
    m: NoticeModel,
    frame: u64,
    top_modal: Option<LayerKey>,
    source: u64,
    title: Seq<char>,
    icon: DialogIcon,
    text: Option<Seq<char>>,
    action: Option<Seq<char>>,
    report: bool,
    nested: bool,
) -> NoticeModel {
    if text is Some && !is_blank(text->0) {
        if m.observed.contains_key(source) && m.observed[source] == text->0 {
            m
        } else {
            published(
                NoticeModel { observed: m.observed.insert(source, text->0), ..m },
                frame,
                top_modal,
                source,
                title,
                icon,
                text->0,
                action,
                report,
                nested,
            )
        }
    } else {
        NoticeModel { observed: m.observed.remove(source), ..m }
    }
}

/// `p` without the notice of `source`.
pub open spec fn without_source(p: Seq<NoticeView>, source: u64) -> Seq<NoticeView> {
    if has_source(p, source) {
        p.remove(source_index(p, source))
    } else {
        p
    }
}

/// The state after everything about `source` is forgotten.
pub open spec fn cleared(m: NoticeModel, source: u64) -> NoticeModel {
    NoticeModel {
        pending: without_source(m.pending, source),
        observed: m.observed.remove(source),
        results: m.results.remove(source),
        progress: m.progress.remove(source),
        ..m
    }
}

/// The state after an operation reports its progress text in `frame`
/// (observed as a waiting notice), or reports that it has finished.
pub open spec fn progressed(
    m: NoticeModel,
    frame: u64,
    source: u64,
    title: Seq<char>,
    text: Option<Seq<char>>,
) -> NoticeModel {
    match text {
        Some(t) => {
            let m1 = observed(
                m,
                frame,
                None,
                source,
                title,
                DialogIcon::Waiting,
                Some(t),
                Some(dismiss_label()),
                false,
                false,
            );
            NoticeModel { progress: m1.progress.insert(source, frame), ..m1 }
        },
        None => cleared(m, source),
    }
}

/// The state after a form dialog on `layer` draws its header in `frame`.
pub open spec fn registered(m: NoticeModel, frame: u64, layer: LayerKey) -> NoticeModel {
    if layer.id == m.modal {
        m
    } else {
        NoticeModel { dialog: Some((frame, layer)), ..m }
    }
}

/// A progress source that was not refreshed in `frame`.
pub open spec fn is_finished(m: NoticeModel, frame: u64, source: u64) -> bool {
    m.progress.contains_key(source) && m.progress[source] != frame
}

pub open spec fn finished_set(m: NoticeModel, frame: u64) -> Set<u64> {
    Set::new(|s: u64| is_finished(m, frame, s))
}

/// The state at the start of a frame, once finished progress sources are gone.
pub open spec fn swept(m: NoticeModel, frame: u64) -> NoticeModel {
    NoticeModel {
        pending: m.pending.filter(|n: NoticeView| !is_finished(m, frame, n.source)),
        observed: m.observed.remove_keys(finished_set(m, frame)),
        progress: m.progress.remove_keys(finished_set(m, frame)),
        ..m
    }
}

/// Whether `n` may be shown in `frame`: with a form dialog open, only the
/// notices of that form are, unless the open dialog is the notice dialog.
pub open spec fn eligible(m: NoticeModel, frame: u64, n: NoticeView) -> bool {
    match active_dialog(m, frame) {
        None => true,
        Some(layer) => layer.id == m.modal || n.parent == Some(layer),
    }
}

pub open spec fn has_eligible(m: NoticeModel, frame: u64, p: Seq<NoticeView>) -> bool {
    exists|i: int| 0 <= i < p.len() && eligible(m, frame, #[trigger] p[i])
}

pub open spec fn first_eligible(m: NoticeModel, frame: u64, p: Seq<NoticeView>) -> int {
    choose|i: int|
        0 <= i < p.len() && eligible(m, frame, #[trigger] p[i]) && forall|j: int|
            0 <= j < i ==> !eligible(m, frame, #[trigger] p[j])
}

/// Whether the notice on screen stays there: it is still queued and eligible.
pub open spec fn keeps_visible(m: NoticeModel, frame: u64) -> bool {
    &&& m.visible is Some
    &&& has_source(m.pending, m.visible->0)
    &&& eligible(m, frame, m.pending[source_index(m.pending, m.visible->0)])
}

/// The notice to show in `frame`: the one already on screen while it stays
/// eligible, else the first eligible one in the queue.
pub open spec fn selected(m: NoticeModel, frame: u64) -> Option<NoticeView> {
    let s = swept(m, frame);
    if keeps_visible(s, frame) {
        Some(s.pending[source_index(s.pending, s.visible->0)])
    } else if has_eligible(s, frame, s.pending) {
        Some(s.pending[first_eligible(s, frame, s.pending)])
    } else {
        None
    }
}

/// The state once the notice to show in `frame` is picked.
pub open spec fn shown(m: NoticeModel, frame: u64) -> NoticeModel {
    NoticeModel {
        visible: match selected(m, frame) {
            Some(n) => Some(n.source),
            None => None,
        },
        ..swept(m, frame)
    }
}

pub open spec fn option_view(n: Option<Notice>) -> Option<NoticeView> {
    match n {
        Some(x) => Some(x@),
        None => None,
    }
}

/// The state after the dialog of `source` is closed: the notice leaves the
/// queue and, for a reporting notice, the choice is kept for its source.
pub open spec fn acknowledged(m: NoticeModel, source: u64, report: bool, accepted: bool) -> NoticeModel {
    NoticeModel {
        pending: without_source(m.pending, source),
        visible: None,
        results: if report {
            m.results.insert(source, accepted)
        } else {
            m.results
        },
        ..m
    }
}

/// Publishing a non-blank message leaves exactly one queued notice for its
/// source, carrying that title, message, icon, action and report flag, and
/// never reorders the others.
pub proof fn lemma_published_once(
    m: NoticeModel,
    frame: u64,
    top_modal: Option<LayerKey>,
    source: u64,
    title: Seq<char>,
    icon: DialogIcon,
    message: Seq<char>,
    action: Option<Seq<char>>,
    report: bool,
    nested: bool,
)
    requires
        unique_sources(m.pending),
        !is_blank(message),
    ensures
        ({
            let p = published(m, frame, top_modal, source, title, icon, message, action, report, nested).pending;
            &&& unique_sources(p)
            &&& has_source(p, source)
            &&& p[source_index(p, source)].message == message
            &&& p[source_index(p, source)].title == title
            &&& p[source_index(p, source)].icon == icon
            &&& p[source_index(p, source)].action == action
            &&& p[source_index(p, source)].report == report
            &&& forall|i: int| 0 <= i < m.pending.len() && m.pending[i].source != source ==> p[i] == m.pending[i]
        }),
{
    let p = published(m, frame, top_modal, source, title, icon, message, action, report, nested).pending;
    if has_source(m.pending, source) {
        let i = source_index(m.pending, source);
        assert(p[i].source == source);
        assert(has_source(p, source));
        assert(source_index(p, source) == i);
    } else {
        let i = m.pending.len() as int;
        assert(p[i].source == source);
        assert(has_source(p, source));
        assert(source_index(p, source) == i);
    }
}

/// A blank message publishes nothing.
pub proof fn lemma_blank_not_published(
    m: NoticeModel,
    frame: u64,
    top_modal: Option<LayerKey>,
    source: u64,
    title: Seq<char>,
    icon: DialogIcon,
    message: Seq<char>,
    action: Option<Seq<char>>,
    report: bool,
    nested: bool,
)
    requires
        is_blank(message),
    ensures
        published(m, frame, top_modal, source, title, icon, message, action, report, nested) == m,
{
}

/// Observing a non-blank text that differs from the one last observed for
/// its source queues it for that source, with the given title and icon, and
/// remembers it; observing no text (or a blank one) forgets the last text
/// and queues nothing, so that the same text later appears again.
pub proof fn lemma_observe_new_text(
    m: NoticeModel,
    frame: u64,
    top_modal: Option<LayerKey>,
    source: u64,
    title: Seq<char>,
    icon: DialogIcon,
    text: Option<Seq<char>>,
    action: Option<Seq<char>>,
    report: bool,
    nested: bool,
)
    requires
        unique_sources(m.pending),
    ensures
        ({
            let o = observed(m, frame, top_modal, source, title, icon, text, action, report, nested);
            &&& (text matches Some(t) && !is_blank(t) && !(m.observed.contains_key(source)
                && m.observed[source] == t)) ==> {
                &&& o.observed.contains_key(source)
                &&& o.observed[source] == text->0
                &&& has_source(o.pending, source)
                &&& o.pending[source_index(o.pending, source)].message == text->0
                &&& o.pending[source_index(o.pending, source)].title == title
                &&& o.pending[source_index(o.pending, source)].icon == icon
            }
            &&& (text matches Some(t) && m.observed.contains_key(source) && m.observed[source] == t
                && !is_blank(t)) ==> o == m
            &&& (text is None || is_blank(text->0)) ==> !o.observed.contains_key(source)
                && o.pending == m.pending
        }),
{
    if text is Some && !is_blank(text->0) && !(m.observed.contains_key(source) && m.observed[source]
        == text->0) {
        let m1 = NoticeModel { observed: m.observed.insert(source, text->0), ..m };
        lemma_published_once(
            m1,
            frame,
            top_modal,
            source,
            title,
            icon,
            text->0,
            action,
            report,
            nested,
        );
    }
}

/// Acknowledging a notice takes its source off the queue and the screen,
/// keeps the others in order, and hands back the choice exactly when the
/// notice reports one.
pub proof fn lemma_acknowledge_effects(m: NoticeModel, source: u64, report: bool, accepted: bool)
    requires
        unique_sources(m.pending),
    ensures
        ({
            let a = acknowledged(m, source, report, accepted);
            &&& !has_source(a.pending, source)
            &&& a.visible is None
            &&& forall|t: u64| t != source ==> (has_source(a.pending, t) <==> has_source(m.pending, t))
            &&& report ==> a.results.contains_key(source) && a.results[source] == accepted
            &&& !report ==> a.results == m.results
            &&& a.observed == m.observed
            &&& a.progress == m.progress
        }),
{
    lemma_without_source(m.pending, source);
}

/// Observing the same text twice in a row is the same as observing it once.
pub proof fn lemma_observe_idempotent(
    m: NoticeModel,
    frame: u64,
    top_modal: Option<LayerKey>,
    source: u64,
    title: Seq<char>,
    icon: DialogIcon,
    text: Option<Seq<char>>,
    action: Option<Seq<char>>,
    report: bool,
    nested: bool,
)
    ensures
        ({
            let once = observed(m, frame, top_modal, source, title, icon, text, action, report, nested);
            observed(once, frame, top_modal, source, title, icon, text, action, report, nested) == once
        }),
{
    let once = observed(m, frame, top_modal, source, title, icon, text, action, report, nested);
    if !(text is Some && !is_blank(text->0)) {
        assert(once.observed.remove(source) =~= once.observed);
    }
}

/// After its notice was acknowledged, a source that publishes the same
/// result again is queued again; a source that merely observes the same
/// text again is not.
pub proof fn lemma_acknowledged_then_repeated(
    m: NoticeModel,
    frame: u64,
    top_modal: Option<LayerKey>,
    source: u64,
    title: Seq<char>,
    icon: DialogIcon,
    message: Seq<char>,
    report: bool,
    accepted: bool,
)
    requires
        unique_sources(m.pending),
        !is_blank(message),
    ensures
        ({
            let a = acknowledged(m, source, report, accepted);
            &&& !has_source(a.pending, source)
            &&& has_source(
                published(a, frame, top_modal, source, title, icon, message, None, false, true).pending,
                source,
            )
            &&& (m.observed.contains_key(source) && m.observed[source] == message) ==> observed(
                a,
                frame,
                top_modal,
                source,
                title,
                icon,
                Some(message),
                None,
                false,
                false,
            ) == a
        }),
{
    lemma_without_source(m.pending, source);
    let a = acknowledged(m, source, report, accepted);
    lemma_published_once(a, frame, top_modal, source, title, icon, message, None, false, true);
}

/// Clearing a source forgets it everywhere.
pub proof fn lemma_cleared_forgets(m: NoticeModel, source: u64)
    requires
        unique_sources(m.pending),
    ensures
        ({
            let c = cleared(m, source);
            &&& unique_sources(c.pending)
            &&& !has_source(c.pending, source)
            &&& !c.observed.contains_key(source)
            &&& !c.results.contains_key(source)
            &&& !c.progress.contains_key(source)
        }),
{
    lemma_without_source(m.pending, source);
}

/// A progress notice whose operation did not report it in this frame is gone
/// at the start of the frame, with its progress record.
pub proof fn lemma_unrefreshed_progress_ends(m: NoticeModel, frame: u64, source: u64)
    requires
        m.progress.contains_key(source),
        m.progress[source] != frame,
    ensures
        !has_source(swept(m, frame).pending, source),
        !swept(m, frame).progress.contains_key(source),
        !swept(m, frame).observed.contains_key(source),
{
    let pred = |n: NoticeView| !is_finished(m, frame, n.source);
    let f = m.pending.filter(pred);
    assert forall|i: int| 0 <= i < f.len() implies #[trigger] f[i].source != source by {
        m.pending.lemma_filter_pred(pred, i);
    }
    assert(finished_set(m, frame).contains(source));
}

/// The notice picked for a frame is queued and may be shown in that frame,
/// and a notice already on screen stays picked while it may be shown.
pub proof fn lemma_selection(m: NoticeModel, frame: u64)
    ensures
        selected(m, frame) matches Some(n) ==> swept(m, frame).pending.contains(n) && eligible(
            m,
            frame,
            n,
        ),
        keeps_visible(swept(m, frame), frame) ==> selected(m, frame)->0.source == m.visible->0,
{
    let s = swept(m, frame);
    if keeps_visible(s, frame) {
        let k = source_index(s.pending, s.visible->0);
        assert(s.pending[k].source == s.visible->0);
        assert(s.pending.contains(s.pending[k]));
    } else if has_eligible(s, frame, s.pending) {
        let i = choose|i: int| 0 <= i < s.pending.len() && eligible(s, frame, #[trigger] s.pending[i]);
        lemma_least_eligible(s, frame, s.pending, i);
        let k = first_eligible(s, frame, s.pending);
        assert(s.pending.contains(s.pending[k]));
    }
}

/// An eligible notice has a first eligible notice at or before it.
proof fn lemma_least_eligible(m: NoticeModel, frame: u64, p: Seq<NoticeView>, i: int)
    requires
        0 <= i < p.len(),
        eligible(m, frame, p[i]),
    ensures
        exists|k: int|
            0 <= k <= i && eligible(m, frame, #[trigger] p[k]) && forall|j: int|
                0 <= j < k ==> !eligible(m, frame, #[trigger] p[j]),
    decreases i,
{
    if exists|j: int| 0 <= j < i && eligible(m, frame, #[trigger] p[j]) {
        let j = choose|j: int| 0 <= j < i && eligible(m, frame, #[trigger] p[j]);
        lemma_least_eligible(m, frame, p, j);
    } else {
        assert(forall|j: int| 0 <= j < i ==> !eligible(m, frame, #[trigger] p[j]));
    }
}

/// A choice made in a reporting dialog is handed back exactly once.
pub proof fn lemma_choice_reported_once(
    m: NoticeModel,
    source: u64,
    title: Seq<char>,
    icon: DialogIcon,
    text: Option<Seq<char>>,
    action: Seq<char>,
    accepted: bool,
)
    ensures
        ({
            let a = acknowledged(m, source, true, accepted);
            let first = observed(a, 0, None, source, title, icon, text, Some(action), true, false);
            let after = NoticeModel { results: first.results.remove(source), ..first };
            let second = observed(after, 0, None, source, title, icon, text, Some(action), true, false);
            &&& first.results.get(source) == Some(accepted)
            &&& second.results.get(source) is None
        }),
{
}

/// Every notice kept by a filter comes from the filtered queue.
proof fn lemma_filter_from(p: Seq<NoticeView>, pred: spec_fn(NoticeView) -> bool)
    ensures
        forall|i: int|
            0 <= i < p.filter(pred).len() ==> exists|j: int|
                0 <= j < p.len() && p[j] == #[trigger] p.filter(pred)[i],
    decreases p.len(),
{
    reveal(Seq::filter);
    if p.len() > 0 {
        let q = p.drop_last();
        lemma_filter_from(q, pred);
        let f = p.filter(pred);
        assert forall|i: int| 0 <= i < f.len() implies exists|j: int|
            0 <= j < p.len() && p[j] == #[trigger] f[i] by {
            if i < q.filter(pred).len() {
                assert(f[i] == q.filter(pred)[i]);
                let j = choose|j: int| 0 <= j < q.len() && q[j] == #[trigger] q.filter(pred)[i];
                assert(p[j] == q[j]);
            } else {
                assert(f[i] == p[p.len() - 1]);
            }
        }
    }
}

/// Filtering keeps notices in order, so sources stay unique.
proof fn lemma_filter_unique(p: Seq<NoticeView>, pred: spec_fn(NoticeView) -> bool)
    requires
        unique_sources(p),
    ensures
        unique_sources(p.filter(pred)),
    decreases p.len(),
{
    reveal(Seq::filter);
    if p.len() > 0 {
        let q = p.drop_last();
        assert(unique_sources(q));
        lemma_filter_unique(q, pred);
        lemma_filter_from(q, pred);
        let fq = q.filter(pred);
        if pred(p.last()) {
            let f = p.filter(pred);
            assert(f == fq.push(p.last()));
            assert forall|i: int| 0 <= i < fq.len() implies #[trigger] fq[i].source != p.last().source by {
                let j = choose|j: int| 0 <= j < q.len() && q[j] == #[trigger] fq[i];
                assert(p[j] == q[j]);
                assert(p[j].source != p[p.len() - 1].source);
            }
        }
    }
}

proof fn lemma_without_source(p: Seq<NoticeView>, source: u64)
    requires
        unique_sources(p),
    ensures
        unique_sources(without_source(p, source)),
        !has_source(without_source(p, source), source),
        forall|t: u64| t != source ==> (has_source(without_source(p, source), t) <==> has_source(p, t)),
{
    if has_source(p, source) {
        let k = source_index(p, source);
        let q = p.remove(k);
        assert forall|i: int, j: int|
            0 <= i < q.len() && 0 <= j < q.len() && i != j implies #[trigger] q[i].source
            != #[trigger] q[j].source by {
            let a = if i < k { i } else { i + 1 };
            let b = if j < k { j } else { j + 1 };
            assert(q[i] == p[a] && q[j] == p[b]);
        }
        assert forall|i: int| 0 <= i < q.len() implies #[trigger] q[i].source != source by {
            let a = if i < k { i } else { i + 1 };
            assert(q[i] == p[a]);
        }
        assert forall|t: u64| t != source implies (has_source(q, t) <==> has_source(p, t)) by {
            if has_source(p, t) {
                let a = choose|a: int| 0 <= a < p.len() && #[trigger] p[a].source == t;
                let i = if a < k { a } else { a - 1 };
                assert(q[i] == p[a]);
            }
            if has_source(q, t) {
                let i = choose|i: int| 0 <= i < q.len() && #[trigger] q[i].source == t;
                let a = if i < k { i } else { i + 1 };
                assert(q[i] == p[a]);
            }
        }
    }
}

spec fn prefix_set(f: Seq<u64>, j: int) -> Set<u64> {
    Set::new(|x: u64| exists|i: int| 0 <= i < j && f[i] == x)
}

/// The progress sources that were not refreshed in `frame`.
fn finished_sources(progress: &HashMap<u64, u64>, frame: u64) -> (r: Vec<u64>)
    ensures
        forall|k: u64| r@.contains(k) <==> (progress@.contains_key(k) && progress@[k] != frame),
{
    let mut r: Vec<u64> = Vec::new();
    let ghost mut seen: Seq<(u64, u64)> = Seq::empty();
    for (k, v) in it: progress.iter()
        invariant
            seen.len() == it.index(),
            it.seq() == vstd::std_specs::hash::spec_hash_map_iter(progress).remaining(),
            forall|j: int| 0 <= j < it.index() ==> seen[j] == (*it.seq()[j].0, *it.seq()[j].1),
            forall|x: u64|
                r@.contains(x) <==> exists|j: int|
                    0 <= j < seen.len() && #[trigger] seen[j] == (x, seen[j].1) && seen[j].1
                        != frame,
    {
        let ghost old_r = r@;
        let ghost old_seen = seen;
        if *v != frame {
            r.push(*k);
        }
        proof {
            seen = seen.push((*k, *v));
            assert forall|x: u64|
                r@.contains(x) <==> exists|j: int|
                    0 <= j < seen.len() && #[trigger] seen[j] == (x, seen[j].1) && seen[j].1
                        != frame by {
                if r@.contains(x) {
                    if x == *k && *v != frame {
                        assert(seen[seen.len() - 1] == (x, seen[seen.len() - 1].1));
                    } else {
                        assert(old_r.contains(x));
                        let j = choose|j: int|
                            0 <= j < old_seen.len() && #[trigger] old_seen[j] == (
                                x,
                                old_seen[j].1,
                            ) && old_seen[j].1 != frame;
                        assert(seen[j] == old_seen[j]);
                    }
                }
                if exists|j: int|
                    0 <= j < seen.len() && #[trigger] seen[j] == (x, seen[j].1) && seen[j].1
                        != frame {
                    let j = choose|j: int|
                        0 <= j < seen.len() && #[trigger] seen[j] == (x, seen[j].1) && seen[j].1
                            != frame;
                    if j < old_seen.len() {
                        assert(old_seen[j] == seen[j]);
                        assert(old_r.contains(x));
                        let i = choose|i: int| 0 <= i < old_r.len() && old_r[i] == x;
                        assert(r@[i] == x);
                    } else {
                        assert(r@[r@.len() - 1] == x);
                    }
                }
            }
        }
    }
    proof {
        let s = vstd::std_specs::hash::spec_hash_map_iter(progress).remaining();
        assert(seen.len() == s.len());
        assert forall|k: u64| r@.contains(k) <==> (progress@.contains_key(k) && progress@[k] != frame) by {
            if r@.contains(k) {
                let j = choose|j: int|
                    0 <= j < seen.len() && #[trigger] seen[j] == (k, seen[j].1) && seen[j].1 != frame;
                assert(progress@.contains_key(*s[j].0));
            }
            if progress@.contains_key(k) && progress@[k] != frame {
                assert(s.contains((&k, &progress@[k])));
                let j = choose|j: int| 0 <= j < s.len() && s[j] == (&k, &progress@[k]);
                assert(seen[j] == (k, progress@[k]));
            }
        }
    }
    r
}

impl NoticeState {
    pub open spec fn wf(&self) -> bool {
        unique_sources(self@.pending)
    }

    /// An empty queue for a window whose notice dialog has layer id `modal`.
    pub fn new(modal: u64) -> (s: Self)
        ensures
            s.wf(),
            s@.modal == modal,
            s@.pending.len() == 0,
            s@.visible is None,
            s@.dialog is None,
            s@.observed == Map::<u64, Seq<char>>::empty(),
            s@.results == Map::<u64, bool>::empty(),
            s@.progress == Map::<u64, u64>::empty(),
    {
        let s = NoticeState {
            modal,
            pending: Vec::new(),
            visible: None,
            dialog: None,
            observed: HashMap::new(),
            results: HashMap::new(),
            progress: HashMap::new(),
        };
        assert(s@.pending =~= Seq::<NoticeView>::empty());
        assert(s@.observed =~= Map::<u64, Seq<char>>::empty());
        s
    }

    fn position(&self, source: u64) -> (r: Option<usize>)
        requires
            self.wf(),
        ensures
            r is Some <==> has_source(self@.pending, source),
            r matches Some(i) ==> i < self@.pending.len() && i == source_index(
                self@.pending,
                source,
            ),
    {
        let mut i: usize = 0;
        while i < self.pending.len()
            invariant
                i <= self.pending@.len(),
                self.wf(),
                self@.pending.len() == self.pending@.len(),
                forall|j: int| 0 <= j < i ==> #[trigger] self@.pending[j].source != source,
            decreases self.pending@.len() - i,
        {
            if self.pending[i].source == source {
                assert(self@.pending[i as int].source == source);
                assert(has_source(self@.pending, source));
                let ghost k = source_index(self@.pending, source);
                assert(self@.pending[k].source == source);
                assert(k == i);
                return Some(i);
            }
            i += 1;
        }
        None
    }

    fn parent_for(&self, frame: u64, top_modal: Option<LayerKey>, nested: bool) -> (r: Option<
        LayerKey,
    >)
        ensures
            r == notice_parent(self@, frame, top_modal, nested),
    {
        if !nested {
            return None;
        }
        match self.dialog {
            Some((seen, layer)) => if seen == frame {
                return Some(layer);
            },
            None => {},
        }
        match top_modal {
            Some(layer) => if layer.id != self.modal {
                Some(layer)
            } else {
                None
            },
            None => None,
        }
    }

    fn publish(
        &mut self,
        frame: u64,
        top_modal: Option<LayerKey>,
        source: u64,
        title: &str,
        icon: DialogIcon,
        message: String,
        action: Option<&str>,
        report: bool,
        nested: bool,
    )
        requires
            old(self).wf(),
        ensures
            final(self).wf(),
            final(self)@ == published(
                old(self)@,
                frame,
                top_modal,
                source,
                title@,
                icon,
                message@,
                str_view(action),
                report,
                nested,
            ),
    {
        if str_is_blank(message.as_str()) {
            return ;
        }
        let ghost m = self@;
        let ghost msg = message@;
        let parent = self.parent_for(frame, top_modal, nested);
        match self.position(source) {
            Some(i) => {
                let old_parent = self.pending[i].parent;
                let n = Notice {
                    source,
                    title: title.to_owned(),
                    message,
                    icon,
                    action: own_text(action),
                    report,
                    parent: old_parent,
                };
                let ghost nv = n@;
                self.pending.set(i, n);
                assert(self@.pending =~= m.pending.update(i as int, nv));
            },
            None => {
                let n = Notice {
                    source,
                    title: title.to_owned(),
                    message,
                    icon,
                    action: own_text(action),
                    report,
                    parent,
                };
                let ghost nv = n@;
                self.pending.push(n);
                assert(self@.pending =~= m.pending.push(nv));
            },
        }
    }

    fn observe(
        &mut self,
        frame: u64,
        top_modal: Option<LayerKey>,
        source: u64,
        title: &str,
        icon: DialogIcon,
        message: Option<&str>,
        action: Option<&str>,
        report: bool,
        nested: bool,
    )
        requires
            old(self).wf(),
        ensures
            final(self).wf(),
            final(self)@ == observed(
                old(self)@,
                frame,
                top_modal,
                source,
                title@,
                icon,
                str_view(message),
                str_view(action),
                report,
                nested,
            ),
    {
        let ghost m = self@;
        match message {
            Some(text) => {
                if str_is_blank(text) {
                    self.observed.remove(&source);
                    assert(self@.observed =~= m.observed.remove(source));
                } else {
                    let same = match self.observed.get(&source) {
                        Some(old) => str_eq(old.as_str(), text),
                        None => false,
                    };
                    if !same {
                        self.observed.insert(source, text.to_owned());
                        assert(self@.observed =~= m.observed.insert(source, text@));
                        self.publish(
                            frame,
                            top_modal,
                            source,
                            title,
                            icon,
                            text.to_owned(),
                            action,
                            report,
                            nested,
                        );
                    }
                }
            },
            None => {
                self.observed.remove(&source);
                assert(self@.observed =~= m.observed.remove(source));
            },
        }
    }

    /// Reports an operation result. The same result from a later attempt is
    /// shown again once the earlier one was acknowledged.
    pub fn notice(
        &mut self,
        frame: u64,
        top_modal: Option<LayerKey>,
        source: u64,
        title: &str,
        icon: DialogIcon,
        message: String,
    )
        requires
            old(self).wf(),
        ensures
            final(self).wf(),
            final(self)@ == published(
                old(self)@,
                frame,
                top_modal,
                source,
                title@,
                icon,
                message@,
                None,
                false,
                true,
            ),
    {
        self.publish(frame, top_modal, source, title, icon, message, None, false, true);
    }

    /// Reports a condition that persists over frames: the notice appears when
    /// the text changes, not on every frame that reports it.
    pub fn observe_notice(&mut self, source: u64, title: &str, icon: DialogIcon, message: Option<&str>)
        requires
            old(self).wf(),
        ensures
            final(self).wf(),
            final(self)@ == observed(
                old(self)@,
                0,
                None,
                source,
                title@,
                icon,
                str_view(message),
                None,
                false,
                false,
            ),
    {
        self.observe(0, None, source, title, icon, message, None, false, false);
    }

    /// As `observe_notice`, for a condition of the form dialog on screen.
    pub fn observe_form_notice(
        &mut self,
        frame: u64,
        top_modal: Option<LayerKey>,
        source: u64,
        title: &str,
        icon: DialogIcon,
        message: Option<&str>,
    )
        requires
            old(self).wf(),
        ensures
            final(self).wf(),
            final(self)@ == observed(
                old(self)@,
                frame,
                top_modal,
                source,
                title@,
                icon,
                str_view(message),
                None,
                false,
                true,
            ),
    {
        self.observe(frame, top_modal, source, title, icon, message, None, false, true);
    }

    /// Observes a notice whose primary button is `action`, and hands back
    /// once the choice made in its dialog: `true` for the action, `false` for
    /// dismissal.
    pub fn observe_notice_action(
        &mut self,
        source: u64,
        title: &str,
        icon: DialogIcon,
        message: Option<&str>,
        action: &str,
    ) -> (r: Option<bool>)
        requires
            old(self).wf(),
        ensures
            final(self).wf(),
            ({
                let m1 = observed(
                    old(self)@,
                    0,
                    None,
                    source,
                    title@,
                    icon,
                    str_view(message),
                    Some(action@),
                    true,
                    false,
                );
                &&& r == m1.results.get(source)
                &&& final(self)@ == NoticeModel { results: m1.results.remove(source), ..m1 }
            }),
    {
        self.observe(0, None, source, title, icon, message, Some(action), true, false);
        let ghost m1 = self@;
        let r = self.results.remove(&source);
        assert(self@.results =~= m1.results.remove(source));
        r
    }

    /// Forgets everything about `source`: its queued notice, what it last
    /// observed, its reported choice and its progress.
    pub fn clear_notice(&mut self, source: u64)
        requires
            old(self).wf(),
        ensures
            final(self).wf(),
            final(self)@ == cleared(old(self)@, source),
    {
        let ghost m = self@;
        proof {
            lemma_without_source(m.pending, source);
        }
        match self.position(source) {
            Some(i) => {
                self.pending.remove(i);
                assert(self@.pending =~= m.pending.remove(i as int));
            },
            None => {},
        }
        self.observed.remove(&source);
        self.results.remove(&source);
        self.progress.remove(&source);
        assert(self@.observed =~= m.observed.remove(source));
    }

    /// Shows `message` as a waiting notice while the operation runs, and
    /// ends it when the operation reports `None`.
    pub fn progress_notice(&mut self, frame: u64, source: u64, title: &str, message: Option<&str>)
        requires
            old(self).wf(),
        ensures
            final(self).wf(),
            final(self)@ == progressed(old(self)@, frame, source, title@, str_view(message)),
    {
        match message {
            Some(text) => {
                let label = "关闭提示";
                proof {
                    reveal_strlit("关闭提示");
                }
                assert(label@ =~= dismiss_label());
                self.observe(
                    frame,
                    None,
                    source,
                    title,
                    DialogIcon::Waiting,
                    Some(text),
                    Some(label),
                    false,
                    false,
                );
                self.progress.insert(source, frame);
            },
            None => self.clear_notice(source),
        }
    }

    /// Records the form dialog whose header is drawn in this frame.
    pub fn register_dialog(&mut self, frame: u64, layer: LayerKey)
        requires
            old(self).wf(),
        ensures
            final(self).wf(),
            final(self)@ == registered(old(self)@, frame, layer),
    {
        if layer.id == self.modal {
            return ;
        }
        self.dialog = Some((frame, layer));
    }


    fn is_eligible(&self, frame: u64, n: &Notice) -> (b: bool)
        ensures
            b == eligible(self@, frame, n@),
    {
        match self.dialog {
            Some((seen, layer)) => if seen == frame {
                layer.id == self.modal || n.parent == Some(layer)
            } else {
                true
            },
            None => true,
        }
    }

    fn sweep(&mut self, frame: u64)
        requires
            old(self).wf(),
        ensures
            final(self).wf(),
            final(self)@ == swept(old(self)@, frame),
    {
        let ghost m = self@;
        let ghost pred = |n: NoticeView| !is_finished(m, frame, n.source);
        let finished = finished_sources(&self.progress, frame);
        let mut kept: Vec<Notice> = Vec::new();
        let mut i: usize = 0;
        while i < self.pending.len()
            invariant
                i <= self.pending@.len(),
                self@ == m,
                kept@.map_values(|n: Notice| n@) == m.pending.take(i as int).filter(pred),
                pred == (|n: NoticeView| !is_finished(m, frame, n.source)),
            decreases self.pending@.len() - i,
        {
            let ghost before = kept@.map_values(|n: Notice| n@);
            let source = self.pending[i].source;
            let done = match self.progress.get(&source) {
                Some(seen) => *seen != frame,
                None => false,
            };
            assert(done == is_finished(m, frame, source));
            if !done {
                let n = self.pending[i].duplicate();
                kept.push(n);
            }
            proof {
                reveal(Seq::filter);
                let t = m.pending.take(i + 1);
                assert(t.drop_last() =~= m.pending.take(i as int));
                assert(t.last() == m.pending[i as int]);
                if !done {
                    assert(kept@.map_values(|n: Notice| n@) =~= before.push(m.pending[i as int]));
                } else {
                    assert(kept@.map_values(|n: Notice| n@) =~= before);
                }
            }
            i += 1;
        }
        proof {
            assert(m.pending.take(self.pending@.len() as int) =~= m.pending);
            lemma_filter_unique(m.pending, pred);
        }
        self.pending = kept;
        let mut j: usize = 0;
        while j < finished.len()
            invariant
                j <= finished@.len(),
                self@.pending == m.pending.filter(pred),
                self@.modal == m.modal,
                self@.visible == m.visible,
                self@.dialog == m.dialog,
                self@.results == m.results,
                self@.observed == m.observed.remove_keys(prefix_set(finished@, j as int)),
                self@.progress == m.progress.remove_keys(prefix_set(finished@, j as int)),
            decreases finished@.len() - j,
        {
            let k = finished[j];
            let ghost before_o = self@.observed;
            let ghost before_p = self@.progress;
            self.observed.remove(&k);
            self.progress.remove(&k);
            proof {
                assert(prefix_set(finished@, j + 1) =~= prefix_set(finished@, j as int).insert(k)) by {
                    assert forall|x: u64| prefix_set(finished@, j + 1).contains(x) implies prefix_set(
                        finished@,
                        j as int,
                    ).insert(k).contains(x) by {
                        let i = choose|i: int| 0 <= i < j + 1 && finished@[i] == x;
                        if i < j {
                            assert(prefix_set(finished@, j as int).contains(x));
                        }
                    }
                    assert forall|x: u64| prefix_set(finished@, j as int).insert(k).contains(
                        x,
                    ) implies prefix_set(finished@, j + 1).contains(x) by {
                        if x == k {
                            assert(finished@[j as int] == x);
                        } else {
                            let i = choose|i: int| 0 <= i < j && finished@[i] == x;
                            assert(finished@[i] == x);
                        }
                    }
                }
                assert(self@.observed =~= before_o.remove(k));
                assert(self@.observed =~= m.observed.remove_keys(prefix_set(finished@, j + 1)));
                assert(self@.progress =~= m.progress.remove_keys(prefix_set(finished@, j + 1)));
            }
            j += 1;
        }
        proof {
            assert(prefix_set(finished@, finished@.len() as int) =~= finished_set(m, frame)) by {
                assert forall|x: u64| finished_set(m, frame).contains(x) implies prefix_set(
                    finished@,
                    finished@.len() as int,
                ).contains(x) by {
                    assert(finished@.contains(x));
                    let i = choose|i: int| 0 <= i < finished@.len() && finished@[i] == x;
                    assert(finished@[i] == x);
                }
                assert forall|x: u64| prefix_set(finished@, finished@.len() as int).contains(
                    x,
                ) implies finished_set(m, frame).contains(x) by {
                    let i = choose|i: int| 0 <= i < finished@.len() && finished@[i] == x;
                    assert(finished@.contains(finished@[i]));
                }
            }
            assert(self@.observed =~= swept(m, frame).observed);
            assert(self@.progress =~= swept(m, frame).progress);
        }
    }

    /// Starts a frame: drops the progress notices whose operation stopped
    /// reporting them, then picks the notice to show. A notice on screen
    /// stays until it is acknowledged, unless a form dialog opened that it
    /// does not belong to.
    pub fn current_notice(&mut self, frame: u64) -> (r: Option<Notice>)
        requires
            old(self).wf(),
        ensures
            final(self).wf(),
            final(self)@ == shown(old(self)@, frame),
            option_view(r) == selected(old(self)@, frame),
    {
        let ghost m = self@;
        self.sweep(frame);
        let ghost s = self@;
        let mut chosen: Option<usize> = None;
        match self.visible {
            Some(v) => match self.position(v) {
                Some(k) => if self.is_eligible(frame, &self.pending[k]) {
                    chosen = Some(k);
                },
                None => {},
            },
            None => {},
        }
        assert(chosen is Some <==> keeps_visible(s, frame));
        if chosen.is_none() {
            let mut i: usize = 0;
            while i < self.pending.len() && chosen.is_none()
                invariant
                    i <= self.pending@.len(),
                    self@ == s,
                    chosen is None ==> forall|j: int|
                        0 <= j < i ==> !eligible(s, frame, #[trigger] s.pending[j]),
                    chosen matches Some(k) ==> k < s.pending.len() && eligible(
                        s,
                        frame,
                        s.pending[k as int],
                    ) && forall|j: int| 0 <= j < k ==> !eligible(s, frame, #[trigger] s.pending[j]),
                decreases self.pending@.len() - i,
            {
                if self.is_eligible(frame, &self.pending[i]) {
                    chosen = Some(i);
                }
                i += 1;
            }
            proof {
                match chosen {
                    Some(k) => {
                        assert(has_eligible(s, frame, s.pending));
                        let c = first_eligible(s, frame, s.pending);
                        if c < k {
                            assert(!eligible(s, frame, s.pending[c]));
                        }
                        if k < c {
                            assert(!eligible(s, frame, s.pending[k as int]));
                        }
                        assert(c == k);
                    },
                    None => {
                        assert(!has_eligible(s, frame, s.pending));
                    },
                }
            }
        }
        match chosen {
            Some(k) => {
                let n = self.pending[k].duplicate();
                self.visible = Some(n.source);
                assert(self@.pending =~= s.pending);
                Some(n)
            },
            None => {
                self.visible = None;
                assert(self@.pending =~= s.pending);
                None
            },
        }
    }

    /// Closes the dialog of `source`: the notice leaves the queue and, for a
    /// reporting notice, `accepted` is kept for `observe_notice_action`.
    pub fn acknowledge(&mut self, source: u64, report: bool, accepted: bool)
        requires
            old(self).wf(),
        ensures
            final(self).wf(),
            final(self)@ == acknowledged(old(self)@, source, report, accepted),
    {
        let ghost m = self@;
        proof {
            lemma_without_source(m.pending, source);
        }
        match self.position(source) {
            Some(i) => {
                self.pending.remove(i);
                assert(self@.pending =~= m.pending.remove(i as int));
            },
            None => {},
        }
        self.visible = None;
        if report {
            self.results.insert(source, accepted);
        }
    }

}

} // verus!
