//! Node-graph editing rules: automatic layering of nodes into columns, the
//! edit history, the size limits on inserting and pasting nodes, and what
//! clicks on the canvas do to the selection, to wires and to layer order.
use crate::text::{
    chars_of, join, join_lines, lemma_text_le_reflexive, lemma_text_le_total,
    lemma_text_le_transitive, push_str, str_eq, string_of, string_views, text_le, text_le_exec,
};
use vstd::prelude::*;

verus! {

/// The views of a list of ids.
pub open spec fn id_views(ids: Seq<String>) -> Seq<Seq<char>> {
    ids.map_values(|s: String| s@)
}

/// The views of a list of `(from, to)` node-id pairs.
pub open spec fn link_views(links: Seq<(String, String)>) -> Seq<(Seq<char>, Seq<char>)> {
    links.map_values(|l: (String, String)| (l.0@, l.1@))
}

/// The level assigned to the node with `id` (every node with that id has the
/// same level), or `None` where no node has that id or it has no level.
pub open spec fn level_of(ids: Seq<Seq<char>>, levels: Seq<Option<usize>>, id: Seq<char>) -> Option<
    usize,
> {
    if exists|j: int| 0 <= j < ids.len() && ids[j] == id {
        levels[choose|j: int| 0 <= j < ids.len() && ids[j] == id]
    } else {
        None
    }
}

/// Every link into `id` comes from a node that has a level.
pub open spec fn sources_leveled(
    ids: Seq<Seq<char>>,
    links: Seq<(Seq<char>, Seq<char>)>,
    levels: Seq<Option<usize>>,
    id: Seq<char>,
) -> bool {
    forall|k: int|
        0 <= k < links.len() && #[trigger] links[k].1 == id ==> level_of(ids, levels, links[k].0) is Some
}

/// One more than the highest level among the sources of `id` over the first
/// `k` links, or 0 where `id` has no leveled source there.
pub open spec fn source_depth(
    ids: Seq<Seq<char>>,
    links: Seq<(Seq<char>, Seq<char>)>,
    levels: Seq<Option<usize>>,
    id: Seq<char>,
    k: int,
) -> int
    decreases k,
{
    if k <= 0 {
        0
    } else {
        let d = source_depth(ids, links, levels, id, k - 1);
        let l = links[k - 1];
        if l.1 == id && level_of(ids, levels, l.0) is Some {
            let s = level_of(ids, levels, l.0)->0 + 1;
            if s > d {
                s
            } else {
                d
            }
        } else {
            d
        }
    }
}

/// The layering that arranging a graph produces: nodes with the same id share
/// a level; a node has a level exactly when all its sources have one, and
/// then lies one column right of its deepest source (column 0 without
/// sources). Nodes that depend on a cycle or on a missing node have none.
pub open spec fn is_layering(
    ids: Seq<Seq<char>>,
    links: Seq<(Seq<char>, Seq<char>)>,
    levels: Seq<Option<usize>>,
) -> bool {
    &&& levels.len() == ids.len()
    &&& forall|i: int, j: int|
        0 <= i < ids.len() && 0 <= j < ids.len() && ids[i] == ids[j] ==> #[trigger] levels[i]
            == #[trigger] levels[j]
    &&& forall|i: int|
        0 <= i < ids.len() ==> (#[trigger] levels[i] is Some <==> sources_leveled(
            ids,
            links,
            levels,
            ids[i],
        ))
    &&& forall|i: int|
        0 <= i < ids.len() && #[trigger] levels[i] is Some ==> levels[i]->0 == source_depth(
            ids,
            links,
            levels,
            ids[i],
            links.len() as int,
        )
}

proof fn lemma_depth_above_source(
    ids: Seq<Seq<char>>,
    links: Seq<(Seq<char>, Seq<char>)>,
    levels: Seq<Option<usize>>,
    id: Seq<char>,
    k: int,
    e: int,
)
    requires
        0 <= e < k <= links.len(),
        links[e].1 == id,
        level_of(ids, levels, links[e].0) is Some,
    ensures
        source_depth(ids, links, levels, id, k) >= level_of(ids, levels, links[e].0)->0 + 1,
    decreases k,
{
    if e < k - 1 {
        lemma_depth_above_source(ids, links, levels, id, k - 1, e);
    }
}

proof fn lemma_depth_agrees(
    ids: Seq<Seq<char>>,
    links: Seq<(Seq<char>, Seq<char>)>,
    l1: Seq<Option<usize>>,
    l2: Seq<Option<usize>>,
    id: Seq<char>,
    k: int,
)
    requires
        0 <= k <= links.len(),
        forall|e: int|
            0 <= e < k && #[trigger] links[e].1 == id ==> level_of(ids, l1, links[e].0) == level_of(
                ids,
                l2,
                links[e].0,
            ),
    ensures
        source_depth(ids, links, l1, id, k) == source_depth(ids, links, l2, id, k),
    decreases k,
{
    if k > 0 {
        lemma_depth_agrees(ids, links, l1, l2, id, k - 1);
    }
}

proof fn lemma_layering_level(
    ids: Seq<Seq<char>>,
    links: Seq<(Seq<char>, Seq<char>)>,
    l1: Seq<Option<usize>>,
    l2: Seq<Option<usize>>,
    n: nat,
    i: int,
)
    requires
        is_layering(ids, links, l1),
        is_layering(ids, links, l2),
        0 <= i < ids.len(),
        l1[i] == Some(n as usize),
    ensures
        l2[i] == l1[i],
    decreases n,
{
    let id = ids[i];
    let len = links.len() as int;
    assert(sources_leveled(ids, links, l1, id));
    assert forall|e: int|
        0 <= e < len && #[trigger] links[e].1 == id implies level_of(ids, l1, links[e].0)
        == level_of(ids, l2, links[e].0) by {
        let src = links[e].0;
        assert(level_of(ids, l1, src) is Some);
        lemma_depth_above_source(ids, links, l1, id, len, e);
        let j = choose|j: int| 0 <= j < ids.len() && ids[j] == src;
        let ls = l1[j]->0;
        lemma_layering_level(ids, links, l1, l2, ls as nat, j);
    }
    assert(sources_leveled(ids, links, l2, id));
    lemma_depth_agrees(ids, links, l1, l2, id, len);
}

/// The layering of a graph is unique: arranging the same nodes and links
/// always yields the same columns, whatever order the work is done in.
pub proof fn lemma_layering_unique(
    ids: Seq<Seq<char>>,
    links: Seq<(Seq<char>, Seq<char>)>,
    l1: Seq<Option<usize>>,
    l2: Seq<Option<usize>>,
)
    requires
        is_layering(ids, links, l1),
        is_layering(ids, links, l2),
    ensures
        l1 == l2,
{
    assert forall|i: int| 0 <= i < ids.len() implies l1[i] == l2[i] by {
        if l1[i] is Some {
            lemma_layering_level(ids, links, l1, l2, l1[i]->0 as nat, i);
        } else if l2[i] is Some {
            lemma_layering_level(ids, links, l2, l1, l2[i]->0 as nat, i);
        }
    }
    assert(l1 =~= l2);
}

// ---- Edit history ----------------------------------------------------------
/// How many past documents the undo history keeps.
pub const HISTORY_LIMIT: usize = 32;

/// The most nodes a graph may hold.
pub const MAX_NODES: usize = 64;

/// The most links a graph may hold.
pub const MAX_LINKS: usize = 256;

/// Undo and redo stacks of whole-document snapshots, newest last.
pub struct History<D> {
    undo: Vec<D>,
    redo: Vec<D>,
}

pub struct HistoryModel<D> {
    pub undo: Seq<D>,
    pub redo: Seq<D>,
}

impl<D> View for History<D> {
    type V = HistoryModel<D>;

    closed spec fn view(&self) -> HistoryModel<D> {
        HistoryModel { undo: self.undo@, redo: self.redo@ }
    }
}

/// The history after a snapshot of the document is taken before an edit: the
/// snapshot is pushed (dropping the oldest beyond the limit) and the redo
/// stack is emptied. Without a document nothing changes.
pub open spec fn checkpointed<D>(h: HistoryModel<D>, snapshot: Option<D>) -> HistoryModel<D> {
    match snapshot {
        Some(doc) => HistoryModel {
            undo: if h.undo.len() + 1 > HISTORY_LIMIT {
                h.undo.push(doc).skip(1)
            } else {
                h.undo.push(doc)
            },
            redo: Seq::empty(),
        },
        None => h,
    }
}

/// Undo: the newest snapshot becomes the document, and the document it
/// replaces goes onto the redo stack.
pub open spec fn undone<D>(h: HistoryModel<D>, doc: Option<D>) -> (HistoryModel<D>, Option<D>) {
    if h.undo.len() == 0 {
        (h, doc)
    } else {
        (
            HistoryModel {
                undo: h.undo.drop_last(),
                redo: match doc {
                    Some(d) => h.redo.push(d),
                    None => h.redo,
                },
            },
            Some(h.undo.last()),
        )
    }
}

/// Redo, the mirror of undo.
pub open spec fn redone<D>(h: HistoryModel<D>, doc: Option<D>) -> (HistoryModel<D>, Option<D>) {
    if h.redo.len() == 0 {
        (h, doc)
    } else {
        (
            HistoryModel {
                redo: h.redo.drop_last(),
                undo: match doc {
                    Some(d) => h.undo.push(d),
                    None => h.undo,
                },
            },
            Some(h.redo.last()),
        )
    }
}

impl<D> History<D> {
    /// Together the stacks never hold more than the history limit.
    pub open spec fn wf(&self) -> bool {
        self@.undo.len() + self@.redo.len() <= HISTORY_LIMIT
    }

    pub fn new() -> (h: Self)
        ensures
            h.wf(),
            h@.undo.len() == 0,
            h@.redo.len() == 0,
    {
        History { undo: Vec::new(), redo: Vec::new() }
    }

    /// Whether there is a step to undo (the undo button is enabled).
    pub fn can_undo(&self) -> (b: bool)
        ensures
            b == (self@.undo.len() > 0),
    {
        self.undo.len() > 0
    }

    /// Whether there is a step to redo (the redo button is enabled).
    pub fn can_redo(&self) -> (b: bool)
        ensures
            b == (self@.redo.len() > 0),
    {
        self.redo.len() > 0
    }

    /// Forgets all history, as opening another document does.
    pub fn clear(&mut self)
        ensures
            final(self).wf(),
            final(self)@.undo.len() == 0,
            final(self)@.redo.len() == 0,
    {
        self.undo = Vec::new();
        self.redo = Vec::new();
    }

    /// Records `snapshot`, a copy of the document as it is before an edit.
    pub fn checkpoint(&mut self, snapshot: Option<D>)
        requires
            old(self).wf(),
        ensures
            final(self).wf(),
            final(self)@ == checkpointed(old(self)@, snapshot),
    {
        match snapshot {
            Some(doc) => {
                let ghost h = self@;
                self.undo.push(doc);
                if self.undo.len() > HISTORY_LIMIT {
                    self.undo.remove(0);
                    assert(self.undo@ =~= h.undo.push(doc).skip(1));
                }
                self.redo = Vec::new();
            },
            None => {},
        }
    }

    /// Steps back: returns whether there was a snapshot to return to.
    pub fn undo(&mut self, doc: &mut Option<D>) -> (changed: bool)
        requires
            old(self).wf(),
        ensures
            final(self).wf(),
            changed == (old(self)@.undo.len() > 0),
            (final(self)@, *final(doc)) == undone(old(self)@, *old(doc)),
    {
        match self.undo.pop() {
            Some(prev) => {
                let current = doc.take();
                *doc = Some(prev);
                match current {
                    Some(current) => self.redo.push(current),
                    None => {},
                }
                true
            },
            None => false,
        }
    }

    /// Steps forward again: returns whether there was a snapshot to return to.
    pub fn redo(&mut self, doc: &mut Option<D>) -> (changed: bool)
        requires
            old(self).wf(),
        ensures
            final(self).wf(),
            changed == (old(self)@.redo.len() > 0),
            (final(self)@, *final(doc)) == redone(old(self)@, *old(doc)),
    {
        match self.redo.pop() {
            Some(next) => {
                let current = doc.take();
                *doc = Some(next);
                match current {
                    Some(current) => self.undo.push(current),
                    None => {},
                }
                true
            },
            None => false,
        }
    }
}

/// Undo right after a checkpoint gives back the snapshot, and moves the
/// edited document onto the redo stack.
pub proof fn lemma_undo_after_checkpoint<D>(h: HistoryModel<D>, snapshot: D, edited: D)
    requires
        h.undo.len() + h.redo.len() <= HISTORY_LIMIT,
    ensures
        undone(checkpointed(h, Some(snapshot)), Some(edited)).1 == Some(snapshot),
        undone(checkpointed(h, Some(snapshot)), Some(edited)).0.redo == seq![edited],
{
    let c = checkpointed(h, Some(snapshot));
    assert(c.undo.last() == snapshot);
    assert(Seq::<D>::empty().push(edited) =~= seq![edited]);
}

/// Redo undoes an undo: the document and both stacks are as before.
pub proof fn lemma_redo_after_undo<D>(h: HistoryModel<D>, doc: D)
    requires
        h.undo.len() > 0,
    ensures
        ({
            let (h1, d1) = undone(h, Some(doc));
            let (h2, d2) = redone(h1, d1);
            d2 == Some(doc) && h2 == h
        }),
{
    let (h1, d1) = undone(h, Some(doc));
    assert(h1.redo.drop_last() =~= h.redo);
    assert(h1.undo.push(h.undo.last()) =~= h.undo);
}

/// Undo undoes a redo.
pub proof fn lemma_undo_after_redo<D>(h: HistoryModel<D>, doc: D)
    requires
        h.redo.len() > 0,
    ensures
        ({
            let (h1, d1) = redone(h, Some(doc));
            let (h2, d2) = undone(h1, d1);
            d2 == Some(doc) && h2 == h
        }),
{
    let (h1, d1) = redone(h, Some(doc));
    assert(h1.undo.drop_last() =~= h.undo);
    assert(h1.redo.push(h.redo.last()) =~= h.redo);
}

// ---- Inserting, pasting and deleting nodes --------------------------------
/// `"校验通过"`, the message of a graph that compiles.
pub open spec fn valid_graph_text() -> Seq<char> {
    seq!['校', '验', '通', '过']
}

/// The message after checking a graph: on success "校验通过", followed on
/// lines of their own by any warnings; on failure the errors, one per line.
pub open spec fn spec_validation_message(outcome: Result<Seq<Seq<char>>, Seq<Seq<char>>>) -> Seq<
    char,
> {
    match outcome {
        Ok(warnings) => if warnings.len() == 0 {
            valid_graph_text()
        } else {
            valid_graph_text() + seq!['\n'] + join(warnings, seq!['\n'])
        },
        Err(errors) => join(errors, seq!['\n']),
    }
}

/// The message shown after checking a graph, given the checker's warnings
/// (`Ok`) or errors (`Err`).
pub fn validation_message(outcome: &Result<Vec<String>, Vec<String>>) -> (s: String)
    ensures
        s@ == spec_validation_message(
            match outcome {
                Ok(w) => Ok(string_views(w@)),
                Err(e) => Err(string_views(e@)),
            },
        ),
{
    match outcome {
        Ok(warnings) => {
            let ok = "校验通过";
            proof {
                reveal_strlit("校验通过");
            }
            let mut v = chars_of(ok);
            assert(v@ =~= valid_graph_text());
            if warnings.len() > 0 {
                v.push('\n');
                let rest = join_lines(warnings.as_slice());
                push_str(&mut v, rest.as_str());
            }
            string_of(v.as_slice())
        },
        Err(errors) => join_lines(errors.as_slice()),
    }
}

/// Whether a node may be added to a document of `nodes` nodes (`None`
/// without a document).
pub fn insert_allowed(nodes: Option<usize>) -> (b: bool)
    ensures
        b == (nodes matches Some(n) && n < MAX_NODES),
{
    match nodes {
        Some(n) => n < MAX_NODES,
        None => false,
    }
}

/// Whether the clipboard (`clip_nodes` nodes, `clip_links` links) may be
/// pasted into a document of `doc.0` nodes and `doc.1` links without going
/// over the graph limits.
pub fn paste_allowed(doc: Option<(usize, usize)>, clip_nodes: usize, clip_links: usize) -> (b: bool)
    ensures
        b == (doc matches Some((n, l)) && n + clip_nodes <= MAX_NODES && l + clip_links <= MAX_LINKS),
{
    match doc {
        Some((n, l)) => clip_nodes <= MAX_NODES && n <= MAX_NODES - clip_nodes && clip_links
            <= MAX_LINKS && l <= MAX_LINKS - clip_links,
        None => false,
    }
}

pub open spec fn contains_id(set: Seq<Seq<char>>, id: Seq<char>) -> bool {
    exists|j: int| 0 <= j < set.len() && set[j] == id
}

fn holds(set: &[String], id: &str) -> (b: bool)
    ensures
        b == contains_id(id_views(set@), id@),
{
    let mut j: usize = 0;
    while j < set.len()
        invariant
            j <= set@.len(),
            forall|x: int| 0 <= x < j ==> #[trigger] id_views(set@)[x] != id@,
        decreases set@.len() - j,
    {
        if str_eq(set[j].as_str(), id) {
            assert(id_views(set@)[j as int] == id@);
            return true;
        }
        j += 1;
    }
    false
}

/// Which nodes and which links survive deleting the `selected` nodes: a
/// node survives unless selected, a link unless either end is selected.
pub fn deletion_masks(ids: &[String], links: &[(String, String)], selected: &[String]) -> (r: (
    Vec<bool>,
    Vec<bool>,
))
    ensures
        r.0@.len() == ids@.len(),
        r.1@.len() == links@.len(),
        forall|i: int|
            0 <= i < ids@.len() ==> #[trigger] r.0@[i] == !contains_id(
                id_views(selected@),
                ids@[i]@,
            ),
        forall|k: int|
            0 <= k < links@.len() ==> #[trigger] r.1@[k] == !(contains_id(
                id_views(selected@),
                links@[k].0@,
            ) || contains_id(id_views(selected@), links@[k].1@)),
{
    let mut nodes: Vec<bool> = Vec::new();
    let mut i: usize = 0;
    while i < ids.len()
        invariant
            i <= ids@.len(),
            nodes@.len() == i,
            forall|x: int|
                0 <= x < i ==> #[trigger] nodes@[x] == !contains_id(
                    id_views(selected@),
                    ids@[x]@,
                ),
        decreases ids@.len() - i,
    {
        nodes.push(!holds(selected, ids[i].as_str()));
        i += 1;
    }
    let mut kept: Vec<bool> = Vec::new();
    let mut k: usize = 0;
    while k < links.len()
        invariant
            k <= links@.len(),
            kept@.len() == k,
            forall|x: int|
                0 <= x < k ==> #[trigger] kept@[x] == !(contains_id(
                    id_views(selected@),
                    links@[x].0@,
                ) || contains_id(id_views(selected@), links@[x].1@)),
        decreases links@.len() - k,
    {
        let a = holds(selected, links[k].0.as_str());
        let b = holds(selected, links[k].1.as_str());
        kept.push(!(a || b));
        k += 1;
    }
    (nodes, kept)
}

/// The set of ids in a list.
pub open spec fn id_set(ids: Seq<String>) -> Set<Seq<char>> {
    Set::new(|x: Seq<char>| contains_id(id_views(ids), x))
}

/// What the copy command takes: the `selected` nodes, and the links with
/// both ends selected.
pub fn copy_masks(ids: &[String], links: &[(String, String)], selected: &[String]) -> (r: (
    Vec<bool>,
    Vec<bool>,
))
    ensures
        r.0@.len() == ids@.len(),
        r.1@.len() == links@.len(),
        forall|i: int|
            0 <= i < ids@.len() ==> #[trigger] r.0@[i] == contains_id(
                id_views(selected@),
                ids@[i]@,
            ),
        forall|k: int|
            0 <= k < links@.len() ==> #[trigger] r.1@[k] == (contains_id(
                id_views(selected@),
                links@[k].0@,
            ) && contains_id(id_views(selected@), links@[k].1@)),
{
    let mut nodes: Vec<bool> = Vec::new();
    let mut i: usize = 0;
    while i < ids.len()
        invariant
            i <= ids@.len(),
            nodes@.len() == i,
            forall|x: int|
                0 <= x < i ==> #[trigger] nodes@[x] == contains_id(
                    id_views(selected@),
                    ids@[x]@,
                ),
        decreases ids@.len() - i,
    {
        nodes.push(holds(selected, ids[i].as_str()));
        i += 1;
    }
    let mut taken: Vec<bool> = Vec::new();
    let mut k: usize = 0;
    while k < links.len()
        invariant
            k <= links@.len(),
            taken@.len() == k,
            forall|x: int|
                0 <= x < k ==> #[trigger] taken@[x] == (contains_id(
                    id_views(selected@),
                    links@[x].0@,
                ) && contains_id(id_views(selected@), links@[x].1@)),
        decreases links@.len() - k,
    {
        let a = holds(selected, links[k].0.as_str());
        let b = holds(selected, links[k].1.as_str());
        taken.push(a && b);
        k += 1;
    }
    (nodes, taken)
}

/// The selection after a click on a node's header: with Ctrl the node is
/// added, or removed when it was selected; without, it alone is selected.
pub open spec fn clicked_selection(sel: Set<Seq<char>>, id: Seq<char>, ctrl: bool) -> Set<
    Seq<char>,
> {
    if !ctrl {
        set![id]
    } else if sel.contains(id) {
        sel.remove(id)
    } else {
        sel.insert(id)
    }
}

/// Applies a click on the header of node `id` to the selection.
pub fn click_node(selected: &mut Vec<String>, id: &str, ctrl: bool)
    ensures
        id_set(final(selected)@) == clicked_selection(id_set(old(selected)@), id@, ctrl),
{
    let fresh = string_of(chars_of(id).as_slice());
    if !ctrl {
        let mut only: Vec<String> = Vec::new();
        only.push(fresh);
        assert(id_views(only@)[0] == id@);
        assert(id_set(only@) =~= set![id@]);
        *selected = only;
        return;
    }
    let ghost before = id_set(old(selected)@);
    let mut kept: Vec<String> = Vec::new();
    let mut found = false;
    let mut j: usize = 0;
    while j < selected.len()
        invariant
            j <= selected@.len(),
            selected@ == old(selected)@,
            before == id_set(old(selected)@),
            found == contains_id(id_views(selected@.subrange(0, j as int)), id@),
            forall|x: Seq<char>|
                #![trigger contains_id(id_views(kept@), x)]
                contains_id(id_views(kept@), x) == (x != id@ && contains_id(
                    id_views(selected@.subrange(0, j as int)),
                    x,
                )),
        decreases selected@.len() - j,
    {
        let ghost prefix = selected@.subrange(0, j as int);
        let ghost next = selected@.subrange(0, j + 1);
        assert(id_views(next) =~= id_views(prefix).push(selected@[j as int]@));
        let ghost old_kept = kept@;
        if str_eq(selected[j].as_str(), id) {
            found = true;
            assert(id_views(next)[j as int] == id@);
        } else {
            let copy = string_of(chars_of(selected[j].as_str()).as_slice());
            kept.push(copy);
            assert(id_views(kept@) =~= id_views(old_kept).push(selected@[j as int]@));
        }
        assert forall|x: Seq<char>|
            #![trigger contains_id(id_views(kept@), x)]
            contains_id(id_views(kept@), x) == (x != id@ && contains_id(id_views(next), x)) by {
            if contains_id(id_views(next), x) {
                let w = choose|w: int| 0 <= w < id_views(next).len() && id_views(next)[w] == x;
                if w < j {
                    assert(id_views(prefix)[w] == x);
                }
            }
            if contains_id(id_views(prefix), x) {
                let w = choose|w: int| 0 <= w < id_views(prefix).len() && id_views(prefix)[w] == x;
                assert(id_views(next)[w] == x);
            }
            if contains_id(id_views(kept@), x) && kept@.len() > old_kept.len() {
                let w = choose|w: int| 0 <= w < id_views(kept@).len() && id_views(kept@)[w] == x;
                if w < old_kept.len() {
                    assert(id_views(old_kept)[w] == x);
                }
            }
            if contains_id(id_views(old_kept), x) {
                let w = choose|w: int| 0 <= w < id_views(old_kept).len() && id_views(old_kept)[w] == x;
                assert(id_views(kept@)[w] == x);
            }
            if x == selected@[j as int]@ {
                assert(id_views(next)[j as int] == x);
                if kept@.len() > old_kept.len() {
                    assert(id_views(kept@)[old_kept.len() as int] == x);
                }
            }
        }
        proof {
            if contains_id(id_views(prefix), id@) {
                let w = choose|w: int| 0 <= w < id_views(prefix).len() && id_views(prefix)[w] == id@;
                assert(id_views(next)[w] == id@);
            }
            if contains_id(id_views(next), id@) {
                let w = choose|w: int| 0 <= w < id_views(next).len() && id_views(next)[w] == id@;
                if w < j {
                    assert(id_views(prefix)[w] == id@);
                }
            }
        }
        j += 1;
    }
    assert(selected@.subrange(0, selected@.len() as int) =~= selected@);
    if !found {
        let ghost old_kept = kept@;
        kept.push(fresh);
        assert(id_views(kept@) =~= id_views(old_kept).push(id@));
        assert forall|x: Seq<char>| #[trigger]
            id_set(kept@).contains(x) == before.insert(id@).contains(x) by {
            if contains_id(id_views(kept@), x) && x != id@ {
                let w = choose|w: int| 0 <= w < id_views(kept@).len() && id_views(kept@)[w] == x;
                if w == old_kept.len() {
                    assert(id_views(kept@)[w] == id@);
                } else {
                    assert(id_views(old_kept)[w] == x);
                }
            }
            if contains_id(id_views(old_kept), x) {
                let w = choose|w: int| 0 <= w < id_views(old_kept).len() && id_views(old_kept)[w] == x;
                assert(id_views(kept@)[w] == x);
            }
            if x == id@ {
                assert(id_views(kept@)[old_kept.len() as int] == x);
            }
        }
        assert(id_set(kept@) =~= before.insert(id@));
    } else {
        assert forall|x: Seq<char>| #[trigger]
            id_set(kept@).contains(x) == before.remove(id@).contains(x) by {
            assert(id_set(kept@).contains(x) == contains_id(id_views(kept@), x));
        }
        assert(id_set(kept@) =~= before.remove(id@));
    }
    *selected = kept;
}

/// Clicking a node twice with Ctrl leaves the selection as it was.
pub proof fn lemma_ctrl_click_twice(sel: Set<Seq<char>>, id: Seq<char>)
    ensures
        clicked_selection(clicked_selection(sel, id, true), id, true) == sel,
{
    if sel.contains(id) {
        assert(sel.remove(id).insert(id) =~= sel);
    } else {
        assert(sel.insert(id).remove(id) =~= sel);
    }
}

/// A link in the making, or made: `from` is always the output end.
pub open spec fn oriented<E>(start: E, start_is_output: bool, end: E) -> (E, E) {
    if start_is_output {
        (start, end)
    } else {
        (end, start)
    }
}

/// A click on a port. With a wire pending from a port of the other kind
/// (an output when this is an input, or the reverse), the two are linked,
/// output first, and the wire ends; otherwise a wire starts at this port.
pub fn click_port<E>(wire: Option<(E, bool)>, port: E, output: bool) -> (r: (
    Option<(E, bool)>,
    Option<(E, E)>,
))
    ensures
        match wire {
            Some((start, start_is_output)) if start_is_output != output => r == (
                None::<(E, bool)>,
                Some(oriented(start, start_is_output, port)),
            ),
            _ => r == (Some((port, output)), None::<(E, E)>),
        },
{
    match wire {
        Some((start, start_is_output)) if start_is_output != output => {
            if start_is_output {
                (None, Some((start, port)))
            } else {
                (None, Some((port, start)))
            }
        },
        _ => (Some((port, output)), None),
    }
}

/// The link made when a dragged wire is released over a port of the other
/// kind: output end first.
pub fn release_wire<E>(start: E, start_is_output: bool, end: E) -> (r: (E, E))
    ensures
        r == oriented(start, start_is_output, end),
{
    if start_is_output {
        (start, end)
    } else {
        (end, start)
    }
}

/// Whether the layer at row `i` of `count` can move up and down: the top row
/// cannot rise and the bottom row cannot sink.
pub fn layer_moves(i: usize, count: usize) -> (r: (bool, bool))
    ensures
        r == (i > 0, i + 1 < count),
{
    (i > 0, i < count && i + 1 < count)
}

/// The row that ends up at position `i` after rows `a` and `b` swap.
pub open spec fn swapped_index(i: int, a: int, b: int) -> int {
    if i == a {
        b
    } else if i == b {
        a
    } else {
        i
    }
}

/// Swaps two rows of the overlay's layer list (listed top first) and
/// renumbers the layers so the list reads top first again: entry `i` gives
/// the row that moves to position `i` and its new order, `count - 1 - i`.
pub fn swap_layers(count: usize, a: usize, b: usize) -> (r: Vec<(usize, u32)>)
    requires
        a < count,
        b < count,
        count <= u32::MAX,
    ensures
        r@.len() == count,
        forall|i: int|
            0 <= i < count ==> #[trigger] r@[i] == (
                swapped_index(i, a as int, b as int) as usize,
                (count - 1 - i) as u32,
            ),
{
    let mut out: Vec<(usize, u32)> = Vec::new();
    let mut i: usize = 0;
    while i < count
        invariant
            i <= count,
            a < count,
            b < count,
            count <= u32::MAX,
            out@.len() == i,
            forall|x: int|
                0 <= x < i ==> #[trigger] out@[x] == (
                    swapped_index(x, a as int, b as int) as usize,
                    (count - 1 - x) as u32,
                ),
        decreases count - i,
    {
        let row = if i == a {
            b
        } else if i == b {
            a
        } else {
            i
        };
        out.push((row, (count - 1 - i) as u32));
        i += 1;
    }
    out
}

/// After a swap every layer has one new position, and the orders fall
/// strictly from the top of the list, so the list stays sorted top first.
pub proof fn lemma_swap_keeps_order(count: usize, a: usize, b: usize, i: int, j: int)
    requires
        a < count,
        b < count,
        0 <= i < count,
        0 <= j < count,
        i != j,
    ensures
        swapped_index(i, a as int, b as int) != swapped_index(j, a as int, b as int),
        0 <= swapped_index(i, a as int, b as int) < count,
        i < j ==> count - 1 - i > count - 1 - j,
{
}

/// The order of the overlay's layer list: higher layer orders first, equal
/// orders by link id in text order.
pub open spec fn layer_before(a: (u32, Seq<char>), b: (u32, Seq<char>)) -> bool {
    a.0 > b.0 || (a.0 == b.0 && text_le(a.1, b.1))
}

/// The sort key of layer `i`: its order and its link id.
pub open spec fn layer_key(layers: Seq<(u32, String)>, i: int) -> (u32, Seq<char>) {
    (layers[i].0, layers[i].1@)
}

/// `rows` lists every layer once, in the list's order; layers with equal
/// keys keep their order in `layers` (the sort is stable).
pub open spec fn is_layer_listing(layers: Seq<(u32, String)>, rows: Seq<usize>) -> bool {
    &&& rows.len() == layers.len()
    &&& forall|p: int| 0 <= p < rows.len() ==> #[trigger] rows[p] < layers.len()
    &&& forall|p: int, q: int|
        #![trigger rows[p], rows[q]]
        0 <= p < q < rows.len() ==> {
            &&& rows[p] != rows[q]
            &&& layer_before(layer_key(layers, rows[p] as int), layer_key(layers, rows[q] as int))
            &&& (layer_key(layers, rows[p] as int) == layer_key(layers, rows[q] as int) ==> rows[p]
                < rows[q])
        }
}

proof fn lemma_layer_before_total(a: (u32, Seq<char>), b: (u32, Seq<char>))
    ensures
        layer_before(a, b) || layer_before(b, a),
        layer_before(a, a),
{
    lemma_text_le_total(a.1, b.1);
    lemma_text_le_reflexive(a.1);
}

proof fn lemma_layer_before_transitive(a: (u32, Seq<char>), b: (u32, Seq<char>), c: (u32, Seq<char>))
    requires
        layer_before(a, b),
        layer_before(b, c),
    ensures
        layer_before(a, c),
{
    if a.0 == b.0 && b.0 == c.0 {
        lemma_text_le_transitive(a.1, b.1, c.1);
    }
}

fn layer_before_exec(a: &(u32, String), b: &(u32, String)) -> (r: bool)
    ensures
        r == layer_before((a.0, a.1@), (b.0, b.1@)),
{
    a.0 > b.0 || (a.0 == b.0 && text_le_exec(a.1.as_str(), b.1.as_str()))
}

/// The rows of the overlay's layer list: the positions of its incoming links
/// `(order, link id)`, top layer first (highest order, then by id).
pub fn layer_rows(layers: &[(u32, String)]) -> (rows: Vec<usize>)
    ensures
        is_layer_listing(layers@, rows@),
{
    let mut rows: Vec<usize> = Vec::new();
    let mut i: usize = 0;
    while i < layers.len()
        invariant
            i <= layers@.len(),
            rows@.len() == i,
            forall|p: int| 0 <= p < rows@.len() ==> #[trigger] rows@[p] < i,
            forall|p: int, q: int|
                #![trigger rows@[p], rows@[q]]
                0 <= p < q < rows@.len() ==> {
                    &&& rows@[p] != rows@[q]
                    &&& layer_before(
                        layer_key(layers@, rows@[p] as int),
                        layer_key(layers@, rows@[q] as int),
                    )
                    &&& (layer_key(layers@, rows@[p] as int) == layer_key(layers@, rows@[q] as int)
                        ==> rows@[p] < rows@[q])
                },
        decreases layers@.len() - i,
    {
        let ghost ki = layer_key(layers@, i as int);
        let mut pos: usize = rows.len();
        while pos > 0 && !layer_before_exec(&layers[rows[pos - 1]], &layers[i])
            invariant
                pos <= rows@.len(),
                i < layers@.len(),
                ki == layer_key(layers@, i as int),
                forall|p: int| 0 <= p < rows@.len() ==> #[trigger] rows@[p] < i,
                forall|q: int|
                    pos <= q < rows@.len() ==> !layer_before(
                        layer_key(layers@, #[trigger] rows@[q] as int),
                        ki,
                    ),
            decreases pos,
        {
            pos -= 1;
        }
        let ghost before = rows@;
        rows.insert(pos, i);
        proof {
            assert(rows@ =~= before.insert(pos as int, i));
            if pos > 0 {
                assert(layer_before(layer_key(layers@, before[pos - 1] as int), ki));
            }
            assert forall|p: int| 0 <= p < rows@.len() implies #[trigger] rows@[p] < i + 1 by {
                if p < pos {
                    assert(rows@[p] == before[p]);
                } else if p > pos {
                    assert(rows@[p] == before[p - 1]);
                }
            }
            assert forall|p: int, q: int|
                #![trigger rows@[p], rows@[q]]
                0 <= p < q < rows@.len() implies {
                    &&& rows@[p] != rows@[q]
                    &&& layer_before(
                        layer_key(layers@, rows@[p] as int),
                        layer_key(layers@, rows@[q] as int),
                    )
                    &&& (layer_key(layers@, rows@[p] as int) == layer_key(layers@, rows@[q] as int)
                        ==> rows@[p] < rows@[q])
                } by {
                if q < pos {
                    assert(rows@[p] == before[p] && rows@[q] == before[q]);
                } else if q == pos {
                    assert(rows@[p] == before[p]);
                    assert(before[p] < i);
                    if p < pos - 1 {
                        assert(layer_before(
                            layer_key(layers@, before[p] as int),
                            layer_key(layers@, before[pos - 1] as int),
                        ));
                        lemma_layer_before_transitive(
                            layer_key(layers@, before[p] as int),
                            layer_key(layers@, before[pos - 1] as int),
                            ki,
                        );
                    }
                } else if p == pos {
                    let other = layer_key(layers@, before[q - 1] as int);
                    assert(rows@[q] == before[q - 1]);
                    assert(before[q - 1] < i);
                    assert(!layer_before(other, ki));
                    lemma_layer_before_total(other, ki);
                    lemma_layer_before_total(ki, other);
                } else if p < pos {
                    assert(rows@[p] == before[p] && rows@[q] == before[q - 1]);
                } else {
                    assert(rows@[p] == before[p - 1] && rows@[q] == before[q - 1]);
                }
            }
        }
        i += 1;
    }
    rows
}

/// Listing renumbered layers gives back the rows they were numbered from:
/// when the orders are distinct and below the number of layers (as
/// `swap_layers` leaves them), the row at position `p` is, whatever the ids,
/// the layer with order `count - 1 - p`.
pub proof fn lemma_renumbered_rows_follow_positions(
    layers: Seq<(u32, String)>,
    rows: Seq<usize>,
    p: int,
)
    requires
        is_layer_listing(layers, rows),
        forall|k: int| 0 <= k < layers.len() ==> #[trigger] layers[k].0 < layers.len(),
        forall|k: int, l: int|
            #![trigger layers[k], layers[l]]
            0 <= k < l < layers.len() ==> layers[k].0 != layers[l].0,
        0 <= p < rows.len(),
    ensures
        layers[rows[p] as int].0 == layers.len() - 1 - p,
{
    let n = layers.len() as int;
    let v = Seq::new(rows.len(), |k: int| layers[rows[k] as int].0 as int);
    assert forall|a: int, b: int| 0 <= a < b < n implies #[trigger] v[a] > #[trigger] v[b] by {
        assert(rows[a] != rows[b]);
        assert(layers[rows[a] as int].0 != layers[rows[b] as int].0);
    }
    assert forall|k: int| 0 <= k < n implies 0 <= #[trigger] v[k] < n by {
        assert(rows[k] < n);
    }
    lemma_falling_values(v, n, p);
}

/// `n` values, each in `0..n` and strictly falling, are `n - 1` down to 0.
proof fn lemma_falling_values(v: Seq<int>, n: int, p: int)
    requires
        v.len() == n,
        0 <= p < n,
        forall|k: int| 0 <= k < n ==> 0 <= #[trigger] v[k] < n,
        forall|a: int, b: int| 0 <= a < b < n ==> #[trigger] v[a] > #[trigger] v[b],
    ensures
        v[p] == n - 1 - p,
{
    lemma_falling_upper(v, n, p);
    lemma_falling_lower(v, n, p);
}

proof fn lemma_falling_upper(v: Seq<int>, n: int, p: int)
    requires
        v.len() == n,
        0 <= p < n,
        forall|k: int| 0 <= k < n ==> 0 <= #[trigger] v[k] < n,
        forall|a: int, b: int| 0 <= a < b < n ==> #[trigger] v[a] > #[trigger] v[b],
    ensures
        v[p] <= n - 1 - p,
    decreases p,
{
    if p > 0 {
        lemma_falling_upper(v, n, p - 1);
        assert(v[p - 1] > v[p]);
    }
}

proof fn lemma_falling_lower(v: Seq<int>, n: int, p: int)
    requires
        v.len() == n,
        0 <= p < n,
        forall|k: int| 0 <= k < n ==> 0 <= #[trigger] v[k] < n,
        forall|a: int, b: int| 0 <= a < b < n ==> #[trigger] v[a] > #[trigger] v[b],
    ensures
        v[p] >= n - 1 - p,
    decreases n - p,
{
    if p < n - 1 {
        lemma_falling_lower(v, n, p + 1);
        assert(v[p] > v[p + 1]);
    }
}

/// Whether `s` is a UUID in the lower-case hyphenated form, version 4.
pub open spec fn is_uuid_v4_text(s: Seq<char>) -> bool {
    &&& s.len() == 36
    &&& forall|i: int|
        0 <= i < 36 ==> if i == 8 || i == 13 || i == 18 || i == 23 {
            #[trigger] s[i] == '-'
        } else {
            ('0' <= s[i] <= '9') || ('a' <= s[i] <= 'f')
        }
    &&& s[14] == '4'
}

/// Byte `i` of the version-4 UUID built from `random`: the version nibble
/// of byte 6 is 4 and the top bits of byte 8 mark the RFC 4122 variant.
pub open spec fn uuid_byte(random: Seq<u8>, i: int) -> u8 {
    if i == 6 {
        (random[6] & 0x0f) | 0x40
    } else if i == 8 {
        (random[8] & 0x3f) | 0x80
    } else {
        random[i]
    }
}

/// The lower-case hexadecimal digit for `d` (below 16).
pub open spec fn lower_hex(d: int) -> char {
    if d < 10 {
        ('0' as int + d) as char
    } else {
        ('a' as int + d - 10) as char
    }
}

/// Hexadecimal digit `k` (of 32) of the UUID built from `random`.
pub open spec fn uuid_digit(random: Seq<u8>, k: int) -> char {
    if k % 2 == 0 {
        lower_hex((uuid_byte(random, k / 2) / 16) as int)
    } else {
        lower_hex((uuid_byte(random, k / 2) % 16) as int)
    }
}

/// The hyphenated lower-case text of the version-4 UUID built from the
/// sixteen bytes `random`.
pub open spec fn spec_uuid_text(random: Seq<u8>) -> Seq<char> {
    Seq::new(
        36,
        |i: int|
            if i == 8 || i == 13 || i == 18 || i == 23 {
                '-'
            } else if i < 8 {
                uuid_digit(random, i)
            } else if i < 13 {
                uuid_digit(random, i - 1)
            } else if i < 18 {
                uuid_digit(random, i - 2)
            } else if i < 23 {
                uuid_digit(random, i - 3)
            } else {
                uuid_digit(random, i - 4)
            },
    )
}

/// The id text of a version-4 UUID built from sixteen random bytes:
/// `uuid::Builder::from_random_bytes(random).into_uuid().to_string()`. The
/// builder sets the version and variant bits; `Display` writes lower-case
/// hexadecimal with hyphens after the 8th, 12th, 16th and 20th digit.
#[verifier::external_body]
fn uuid_text(random: [u8; 16]) -> (s: String)
    ensures
        s@ == spec_uuid_text(random@),
{
    uuid::Builder::from_random_bytes(random).into_uuid().to_string()
}

proof fn lemma_uuid_digit_hex(random: Seq<u8>, k: int)
    requires
        0 <= k < 32,
    ensures
        ('0' <= uuid_digit(random, k) <= '9') || ('a' <= uuid_digit(random, k) <= 'f'),
{
    let b = uuid_byte(random, k / 2);
    assert(b / 16 < 16 && b % 16 < 16);
}

/// Every id text built from random bytes is a version-4 UUID.
pub proof fn lemma_uuid_text_is_v4(random: Seq<u8>)
    requires
        random.len() == 16,
    ensures
        is_uuid_v4_text(spec_uuid_text(random)),
{
    let s = spec_uuid_text(random);
    let x = random[6];
    assert(((x & 0x0f) | 0x40) / 16 == 4) by (bit_vector);
    assert(s[14] == uuid_digit(random, 12));
    assert forall|i: int| 0 <= i < 36 implies if i == 8 || i == 13 || i == 18 || i == 23 {
        #[trigger] s[i] == '-'
    } else {
        ('0' <= s[i] <= '9') || ('a' <= s[i] <= 'f')
    } by {
        if !(i == 8 || i == 13 || i == 18 || i == 23) {
            if i < 8 {
                lemma_uuid_digit_hex(random, i);
            } else if i < 13 {
                lemma_uuid_digit_hex(random, i - 1);
            } else if i < 18 {
                lemma_uuid_digit_hex(random, i - 2);
            } else if i < 23 {
                lemma_uuid_digit_hex(random, i - 3);
            } else {
                lemma_uuid_digit_hex(random, i - 4);
            }
        }
    }
}

/// The last position holding `id`: pasting maps an id to the fresh id of its
/// last copy in the clipboard.
pub open spec fn last_at(ids: Seq<Seq<char>>, id: Seq<char>, j: int) -> bool {
    &&& 0 <= j < ids.len()
    &&& ids[j] == id
    &&& forall|x: int| j < x < ids.len() ==> #[trigger] ids[x] != id
}

fn find_last(ids: &[String], id: &str) -> (r: Option<usize>)
    ensures
        match r {
            Some(j) => last_at(id_views(ids@), id@, j as int),
            None => !contains_id(id_views(ids@), id@),
        },
{
    let mut j: usize = ids.len();
    while j > 0
        invariant
            j <= ids@.len(),
            forall|x: int| j <= x < ids@.len() ==> #[trigger] id_views(ids@)[x] != id@,
        decreases j,
    {
        if str_eq(ids[j - 1].as_str(), id) {
            return Some(j - 1);
        }
        j -= 1;
    }
    None
}

/// The ids a paste gives to the copied nodes and links, and the links
/// rewired to the new node ids.
pub struct PastePlan {
    pub node_ids: Vec<String>,
    pub link_ids: Vec<String>,
    pub links: Vec<(String, String)>,
}

/// Both ends of a link name copied nodes.
pub open spec fn ends_copied(ids: Seq<Seq<char>>, link: (Seq<char>, Seq<char>)) -> bool {
    contains_id(ids, link.0) && contains_id(ids, link.1)
}

/// `out` is `link` with each end replaced by the new id of the last copied
/// node with that id.
pub open spec fn rewired(
    ids: Seq<Seq<char>>,
    new_ids: Seq<Seq<char>>,
    link: (Seq<char>, Seq<char>),
    out: (Seq<char>, Seq<char>),
) -> bool {
    exists|a: int, b: int|
        last_at(ids, link.0, a) && last_at(ids, link.1, b) && out.0 == new_ids[a] && out.1
            == new_ids[b]
}

/// The copied links rewired to `new_ids`, the ids the copied nodes get (in
/// the order of `clip_ids`): each end becomes the new id of the last copied
/// node with its id. Every link end must be a copied node.
pub fn rewire_links(clip_ids: &[String], clip_links: &[(String, String)], new_ids: &[String]) -> (links:
    Vec<(String, String)>)
    requires
        new_ids@.len() == clip_ids@.len(),
        forall|k: int|
            0 <= k < clip_links@.len() ==> ends_copied(
                id_views(clip_ids@),
                #[trigger] link_views(clip_links@)[k],
            ),
    ensures
        links@.len() == clip_links@.len(),
        forall|k: int|
            0 <= k < clip_links@.len() ==> rewired(
                id_views(clip_ids@),
                id_views(new_ids@),
                link_views(clip_links@)[k],
                #[trigger] link_views(links@)[k],
            ),
{
    let ghost idv = id_views(clip_ids@);
    let mut links: Vec<(String, String)> = Vec::new();
    let mut k: usize = 0;
    while k < clip_links.len()
        invariant
            k <= clip_links@.len(),
            idv == id_views(clip_ids@),
            new_ids@.len() == clip_ids@.len(),
            links@.len() == k,
            forall|x: int|
                0 <= x < clip_links@.len() ==> ends_copied(idv, #[trigger] link_views(clip_links@)[x]),
            forall|x: int|
                0 <= x < k ==> rewired(
                    idv,
                    id_views(new_ids@),
                    link_views(clip_links@)[x],
                    #[trigger] link_views(links@)[x],
                ),
        decreases clip_links@.len() - k,
    {
        let ghost l = link_views(clip_links@)[k as int];
        assert(ends_copied(idv, l));
        let a = find_last(clip_ids, clip_links[k].0.as_str());
        let b = find_last(clip_ids, clip_links[k].1.as_str());
        match (a, b) {
            (Some(a), Some(b)) => {
                let from = new_ids[a].clone();
                let to = new_ids[b].clone();
                let ghost before = links@;
                links.push((from, to));
                proof {
                    let lv = link_views(links@);
                    assert(lv[k as int].0 == id_views(new_ids@)[a as int]);
                    assert(lv[k as int].1 == id_views(new_ids@)[b as int]);
                    assert(rewired(idv, id_views(new_ids@), l, lv[k as int]));
                    assert forall|x: int| 0 <= x < k implies #[trigger] lv[x] == link_views(before)[x] by {}
                }
            },
            _ => {
                // Both ends are copied nodes, so both searches succeed.
                assert(false);
                links.push((String::new(), String::new()));
            },
        }
        k += 1;
    }
    links
}

/// Gives every copied node and link the id of a version-4 UUID built from
/// its own sixteen random bytes (`random[i]` for node `i`, then
/// `random[n + k]` for link `k`, with `n` copied nodes) and rewires each link
/// to the new ids of its ends. Every link end must be a copied node.
pub fn plan_paste(clip_ids: &[String], clip_links: &[(String, String)], random: &[[u8; 16]]) -> (plan:
    PastePlan)
    requires
        random@.len() == clip_ids@.len() + clip_links@.len(),
        forall|k: int|
            0 <= k < clip_links@.len() ==> ends_copied(
                id_views(clip_ids@),
                #[trigger] link_views(clip_links@)[k],
            ),
    ensures
        plan.node_ids@.len() == clip_ids@.len(),
        plan.link_ids@.len() == clip_links@.len(),
        plan.links@.len() == clip_links@.len(),
        forall|i: int|
            0 <= i < plan.node_ids@.len() ==> #[trigger] plan.node_ids@[i]@ == spec_uuid_text(
                random@[i]@,
            ),
        forall|k: int|
            0 <= k < plan.link_ids@.len() ==> #[trigger] plan.link_ids@[k]@ == spec_uuid_text(
                random@[clip_ids@.len() + k]@,
            ),
        forall|k: int|
            0 <= k < clip_links@.len() ==> rewired(
                id_views(clip_ids@),
                id_views(plan.node_ids@),
                link_views(clip_links@)[k],
                #[trigger] link_views(plan.links@)[k],
            ),
{
    let n = clip_ids.len();
    let mut node_ids: Vec<String> = Vec::new();
    let mut i: usize = 0;
    while i < n
        invariant
            i <= n,
            n == clip_ids@.len(),
            random@.len() == clip_ids@.len() + clip_links@.len(),
            node_ids@.len() == i,
            forall|x: int| 0 <= x < i ==> #[trigger] node_ids@[x]@ == spec_uuid_text(random@[x]@),
        decreases n - i,
    {
        node_ids.push(uuid_text(random[i]));
        i += 1;
    }
    let mut link_ids: Vec<String> = Vec::new();
    let mut k: usize = 0;
    while k < clip_links.len()
        invariant
            k <= clip_links@.len(),
            n == clip_ids@.len(),
            random@.len() == clip_ids@.len() + clip_links@.len(),
            link_ids@.len() == k,
            forall|x: int|
                0 <= x < k ==> #[trigger] link_ids@[x]@ == spec_uuid_text(random@[n + x]@),
        decreases clip_links@.len() - k,
    {
        assert(n + k < random@.len());
        assert(random@.len() == random.len());
        link_ids.push(uuid_text(random[n + k]));
        k += 1;
    }
    let links = rewire_links(clip_ids, clip_links, node_ids.as_slice());
    PastePlan { node_ids, link_ids, links }
}

/// The link to take a waypoint from: the first link with `id`, provided it
/// has a waypoint at `index`. Link ids are unique.
pub fn reroute_target(link_ids: &[String], waypoints: &[usize], id: &str, index: usize) -> (r: Option<
    usize,
>)
    requires
        link_ids@.len() == waypoints@.len(),
    ensures
        match r {
            Some(k) => k < link_ids@.len() && first_at(id_views(link_ids@), id@, k as int)
                && index < waypoints@[k as int],
            None => forall|k: int|
                0 <= k < link_ids@.len() && first_at(id_views(link_ids@), id@, k) ==> index
                    >= waypoints@[k],
        },
{
    match find_first(link_ids, id) {
        Some(k) => if index < waypoints[k] {
            Some(k)
        } else {
            None
        },
        None => None,
    }
}

/// The display name of a node: the name of its type where the catalog knows
/// the type, else the type id. The catalog lists `(type id, name)` pairs.
pub fn node_name<'a>(type_id: &'a str, types: &'a [(String, String)]) -> (r: &'a str)
    ensures
        (exists|k: int| 0 <= k < types@.len() && types@[k].0@ == type_id@) ==> exists|k: int|
            0 <= k < types@.len() && types@[k].0@ == type_id@ && r@ == types@[k].1@ && forall|
                x: int,
            |
                0 <= x < k ==> types@[x].0@ != type_id@,
        !(exists|k: int| 0 <= k < types@.len() && types@[k].0@ == type_id@) ==> r@ == type_id@,
{
    let mut k: usize = 0;
    while k < types.len()
        invariant
            k <= types@.len(),
            forall|x: int| 0 <= x < k ==> types@[x].0@ != type_id@,
        decreases types@.len() - k,
    {
        if str_eq(types[k].0.as_str(), type_id) {
            return types[k].1.as_str();
        }
        k += 1;
    }
    type_id
}

/// The name shown for port `port` among `(port id, name)` pairs: the name of
/// the first port with that id, else the id itself.
pub open spec fn port_label(ports: Seq<(Seq<char>, Seq<char>)>, port: Seq<char>) -> Seq<char> {
    if exists|k: int| 0 <= k < ports.len() && ports[k].0 == port {
        ports[choose|k: int|
            0 <= k < ports.len() && ports[k].0 == port && forall|x: int|
                0 <= x < k ==> #[trigger] ports[x].0 != port].1
    } else {
        port
    }
}

/// Describes a link end as `"node · port"` given the display name of the
/// end's node (`None` when the node is gone, giving an empty text) and the
/// `(id, name)` pairs of that node's ports on the end's side.
pub fn describe_endpoint(node: Option<&str>, ports: &[(String, String)], port: &str) -> (r: String)
    ensures
        r@ == match node {
            Some(name) => name@ + seq![' ', '·', ' '] + port_label(link_views(ports@), port@),
            None => Seq::<char>::empty(),
        },
{
    match node {
        None => String::new(),
        Some(name) => {
            let ghost pv = link_views(ports@);
            let mut label: &str = port;
            let mut k: usize = 0;
            let mut found = false;
            while k < ports.len()
                invariant
                    k <= ports@.len(),
                    pv == link_views(ports@),
                    !found ==> label@ == port@,
                    !found ==> forall|x: int| 0 <= x < k ==> #[trigger] pv[x].0 != port@,
                    found ==> label@ == port_label(pv, port@),
                decreases ports@.len() - k,
            {
                if !found && str_eq(ports[k].0.as_str(), port) {
                    label = ports[k].1.as_str();
                    found = true;
                    proof {
                        let c = choose|c: int|
                            0 <= c < pv.len() && pv[c].0 == port@ && forall|x: int|
                                0 <= x < c ==> #[trigger] pv[x].0 != port@;
                        assert(pv[k as int].0 == port@);
                        if c < k {
                            assert(pv[c].0 != port@);
                        }
                        if k < c {
                            assert(pv[k as int].0 != port@);
                        }
                    }
                }
                k += 1;
            }
            let mut out = chars_of(name);
            push_str(&mut out, " · ");
            push_str(&mut out, label);
            proof {
                reveal_strlit(" · ");
            }
            assert(out@ =~= name@ + seq![' ', '·', ' '] + label@);
            string_of(out.as_slice())
        },
    }
}

/// The first position holding `id`, if any.
pub open spec fn first_index(ids: Seq<Seq<char>>, id: Seq<char>) -> Option<int> {
    if exists|j: int| first_at(ids, id, j) {
        Some(choose|j: int| first_at(ids, id, j))
    } else {
        None
    }
}

/// Describes the link end at port `port` of node `node` as `"node · port"`:
/// the first node with that id gives its display name and its ports on the
/// end's side (`labels` holds, for each of `node_ids`, the node's display
/// name and `(port id, name)` pairs); empty when no node has that id.
pub fn endpoint_name(
    node_ids: &[String],
    labels: &[(String, Vec<(String, String)>)],
    node: &str,
    port: &str,
) -> (r: String)
    requires
        labels@.len() == node_ids@.len(),
    ensures
        r@ == match first_index(id_views(node_ids@), node@) {
            Some(j) => labels@[j].0@ + seq![' ', '·', ' '] + port_label(
                link_views(labels@[j].1@),
                port@,
            ),
            None => Seq::<char>::empty(),
        },
{
    let ghost ids = id_views(node_ids@);
    match find_first(node_ids, node) {
        None => {
            proof {
                if exists|j: int| first_at(ids, node@, j) {
                    let j = choose|j: int| first_at(ids, node@, j);
                    assert(ids[j] != node@);
                }
            }
            String::new()
        },
        Some(j) => {
            proof {
                assert(first_at(ids, node@, j as int));
                let c = choose|c: int| first_at(ids, node@, c);
                if c < j {
                    assert(ids[c] != node@);
                }
                if j < c {
                    assert(ids[j as int] != node@);
                }
            }
            describe_endpoint(Some(labels[j].0.as_str()), labels[j].1.as_slice(), port)
        },
    }
}

// ---- Index form used by the implementation -------------------------------
/// `j` is the first position holding `id`.
pub open spec fn first_at(ids: Seq<Seq<char>>, id: Seq<char>, j: int) -> bool {
    &&& 0 <= j < ids.len()
    &&& ids[j] == id
    &&& forall|x: int| 0 <= x < j ==> #[trigger] ids[x] != id
}

spec fn first_of(ids: Seq<Seq<char>>, id: Seq<char>, r: Option<usize>) -> bool {
    match r {
        Some(j) => first_at(ids, id, j as int),
        None => forall|x: int| 0 <= x < ids.len() ==> #[trigger] ids[x] != id,
    }
}

fn find_first(ids: &[String], id: &str) -> (r: Option<usize>)
    ensures
        first_of(id_views(ids@), id@, r),
{
    let mut j: usize = 0;
    while j < ids.len()
        invariant
            j <= ids@.len(),
            forall|x: int| 0 <= x < j ==> #[trigger] id_views(ids@)[x] != id@,
        decreases ids@.len() - j,
    {
        if str_eq(ids[j].as_str(), id) {
            return Some(j);
        }
        j += 1;
    }
    None
}

/// Sources of `c` over the first `k` links all have levels.
spec fn ready_upto(
    lv: Seq<Option<usize>>,
    from: Seq<Option<usize>>,
    to: Seq<Option<usize>>,
    c: usize,
    k: int,
) -> bool {
    forall|e: int|
        0 <= e < k && #[trigger] to[e] == Some(c) ==> from[e] is Some && lv[from[e]->0 as int] is Some
}

spec fn depth_upto(
    lv: Seq<Option<usize>>,
    from: Seq<Option<usize>>,
    to: Seq<Option<usize>>,
    c: usize,
    k: int,
) -> int
    decreases k,
{
    if k <= 0 {
        0
    } else {
        let d = depth_upto(lv, from, to, c, k - 1);
        if to[k - 1] == Some(c) && from[k - 1] is Some && lv[from[k - 1]->0 as int] is Some {
            let s = lv[from[k - 1]->0 as int]->0 + 1;
            if s > d {
                s
            } else {
                d
            }
        } else {
            d
        }
    }
}

spec fn count_some(lv: Seq<Option<usize>>) -> nat
    decreases lv.len(),
{
    if lv.len() == 0 {
        0
    } else {
        count_some(lv.drop_last()) + if lv.last() is Some {
            1nat
        } else {
            0nat
        }
    }
}

proof fn lemma_count_some_bound(lv: Seq<Option<usize>>)
    ensures
        count_some(lv) <= lv.len(),
    decreases lv.len(),
{
    if lv.len() > 0 {
        lemma_count_some_bound(lv.drop_last());
    }
}

proof fn lemma_count_some_update(lv: Seq<Option<usize>>, c: int, x: usize)
    requires
        0 <= c < lv.len(),
        lv[c] is None,
    ensures
        count_some(lv.update(c, Some(x))) == count_some(lv) + 1,
    decreases lv.len(),
{
    let u = lv.update(c, Some(x));
    if c == lv.len() - 1 {
        assert(u.drop_last() =~= lv.drop_last());
    } else {
        assert(u.drop_last() =~= lv.drop_last().update(c, Some(x)));
        lemma_count_some_update(lv.drop_last(), c, x);
    }
}

/// Levels that do not change at the sources of `c` keep its depth.
proof fn lemma_depth_stable(
    lv: Seq<Option<usize>>,
    lv2: Seq<Option<usize>>,
    from: Seq<Option<usize>>,
    to: Seq<Option<usize>>,
    c: usize,
    k: int,
)
    requires
        0 <= k <= to.len(),
        to.len() == from.len(),
        forall|e: int|
            0 <= e < k && #[trigger] to[e] == Some(c) && from[e] is Some ==> lv2[from[e]->0 as int]
                == lv[from[e]->0 as int],
    ensures
        depth_upto(lv2, from, to, c, k) == depth_upto(lv, from, to, c, k),
    decreases k,
{
    if k > 0 {
        lemma_depth_stable(lv, lv2, from, to, c, k - 1);
    }
}

/// The invariant of the layering loop over canonical positions.
spec fn consistent(
    lv: Seq<Option<usize>>,
    key: Seq<usize>,
    from: Seq<Option<usize>>,
    to: Seq<Option<usize>>,
) -> bool {
    &&& forall|c: int|
        0 <= c < lv.len() && #[trigger] lv[c] is Some ==> key[c] == c && ready_upto(
            lv,
            from,
            to,
            c as usize,
            to.len() as int,
        ) && lv[c]->0 == depth_upto(lv, from, to, c as usize, to.len() as int) && lv[c]->0
            < count_some(lv)
}


/// What the index form says about one link, in terms of ids and levels.
proof fn lemma_link(
    ids: Seq<Seq<char>>,
    links: Seq<(Seq<char>, Seq<char>)>,
    key: Seq<usize>,
    from: Seq<Option<usize>>,
    to: Seq<Option<usize>>,
    lv: Seq<Option<usize>>,
    r: Seq<Option<usize>>,
    i: int,
    k: int,
)
    requires
        0 <= i < ids.len(),
        0 <= k < links.len(),
        key.len() == ids.len(),
        r.len() == ids.len(),
        lv.len() == ids.len(),
        from.len() == links.len(),
        to.len() == links.len(),
        forall|x: int| 0 <= x < ids.len() ==> first_at(ids, ids[x], #[trigger] key[x] as int),
        forall|x: int| 0 <= x < links.len() ==> first_of(ids, links[x].0, #[trigger] from[x]),
        forall|x: int| 0 <= x < links.len() ==> first_of(ids, links[x].1, #[trigger] to[x]),
        forall|x: int| 0 <= x < ids.len() ==> #[trigger] r[x] == lv[key[x] as int],
    ensures
        (links[k].1 == ids[i]) == (to[k] == Some(key[i])),
        level_of(ids, r, links[k].0) == (if from[k] is Some {
            lv[from[k]->0 as int]
        } else {
            None
        }),
{
    let ki = key[i] as int;
    if links[k].1 == ids[i] {
        match to[k] {
            Some(t) => {
                if (t as int) < ki {
                    assert(ids[t as int] != ids[i]);
                }
                if ki < t {
                    assert(ids[ki] != links[k].1);
                }
            },
            None => {
                assert(ids[i] != links[k].1);
            },
        }
    }
    let id = links[k].0;
    match from[k] {
        Some(f) => {
            assert(ids[f as int] == id);
            let j = choose|j: int| 0 <= j < ids.len() && ids[j] == id;
            let kj = key[j] as int;
            if kj < f {
                assert(ids[kj] == ids[j]);
            }
            if (f as int) < kj {
                assert(ids[f as int] != ids[j]);
            }
        },
        None => {},
    }
}

proof fn lemma_depth_matches(
    ids: Seq<Seq<char>>,
    links: Seq<(Seq<char>, Seq<char>)>,
    key: Seq<usize>,
    from: Seq<Option<usize>>,
    to: Seq<Option<usize>>,
    lv: Seq<Option<usize>>,
    r: Seq<Option<usize>>,
    i: int,
    k: int,
)
    requires
        0 <= i < ids.len(),
        0 <= k <= links.len(),
        key.len() == ids.len(),
        r.len() == ids.len(),
        lv.len() == ids.len(),
        from.len() == links.len(),
        to.len() == links.len(),
        forall|x: int| 0 <= x < ids.len() ==> first_at(ids, ids[x], #[trigger] key[x] as int),
        forall|x: int| 0 <= x < links.len() ==> first_of(ids, links[x].0, #[trigger] from[x]),
        forall|x: int| 0 <= x < links.len() ==> first_of(ids, links[x].1, #[trigger] to[x]),
        forall|x: int| 0 <= x < ids.len() ==> #[trigger] r[x] == lv[key[x] as int],
    ensures
        source_depth(ids, links, r, ids[i], k) == depth_upto(lv, from, to, key[i], k),
        sources_leveled(ids, links, r, ids[i]) == ready_upto(
            lv,
            from,
            to,
            key[i],
            links.len() as int,
        ),
    decreases k,
{
    if k > 0 {
        lemma_depth_matches(ids, links, key, from, to, lv, r, i, k - 1);
        lemma_link(ids, links, key, from, to, lv, r, i, k - 1);
    }
    assert forall|e: int| 0 <= e < links.len() implies (#[trigger] links[e].1 == ids[i]) == (to[e]
        == Some(key[i])) && level_of(ids, r, links[e].0) == (if from[e] is Some {
        lv[from[e]->0 as int]
    } else {
        None
    }) by {
        lemma_link(ids, links, key, from, to, lv, r, i, e);
    }
    if sources_leveled(ids, links, r, ids[i]) {
        assert forall|e: int|
            0 <= e < links.len() && #[trigger] to[e] == Some(key[i]) implies from[e] is Some
            && lv[from[e]->0 as int] is Some by {
            assert(links[e].1 == ids[i]);
        }
    }
    if ready_upto(lv, from, to, key[i], links.len() as int) {
        assert forall|e: int|
            0 <= e < links.len() && #[trigger] links[e].1 == ids[i] implies level_of(
            ids,
            r,
            links[e].0,
        ) is Some by {
            assert(to[e] == Some(key[i]));
        }
    }
}

/// Assigns each node its column: a node is placed once every node feeding
/// it is placed, one column right of its deepest source. Nodes fed through a
/// cycle, or by a link from a node that does not exist, get no column.
pub fn arrange_levels(ids: &[String], links: &[(String, String)]) -> (r: Vec<Option<usize>>)
    ensures
        is_layering(id_views(ids@), link_views(links@), r@),
{
    let ghost idv = id_views(ids@);
    let ghost lkv = link_views(links@);
    let n = ids.len();
    let m = links.len();
    let mut key: Vec<usize> = Vec::new();
    let mut i: usize = 0;
    while i < n
        invariant
            i <= n,
            n == ids@.len(),
            idv == id_views(ids@),
            key@.len() == i,
            forall|x: int| 0 <= x < i ==> first_at(idv, idv[x], #[trigger] key@[x] as int),
        decreases n - i,
    {
        let f = find_first(ids, ids[i].as_str());
        match f {
            Some(j) => key.push(j),
            None => {
                assert(idv[i as int] == ids@[i as int]@);
                key.push(i);
            },
        }
        i += 1;
    }
    let mut from: Vec<Option<usize>> = Vec::new();
    let mut to: Vec<Option<usize>> = Vec::new();
    let mut k: usize = 0;
    while k < m
        invariant
            k <= m,
            m == links@.len(),
            lkv == link_views(links@),
            idv == id_views(ids@),
            from@.len() == k,
            to@.len() == k,
            forall|x: int| 0 <= x < k ==> first_of(idv, lkv[x].0, #[trigger] from@[x]),
            forall|x: int| 0 <= x < k ==> first_of(idv, lkv[x].1, #[trigger] to@[x]),
        decreases m - k,
    {
        from.push(find_first(ids, links[k].0.as_str()));
        to.push(find_first(ids, links[k].1.as_str()));
        k += 1;
    }
    let mut lv: Vec<Option<usize>> = Vec::new();
    let mut i: usize = 0;
    while i < n
        invariant
            i <= n,
            lv@.len() == i,
            forall|x: int| 0 <= x < i ==> #[trigger] lv@[x] is None,
        decreases n - i,
    {
        lv.push(None);
        i += 1;
    }
    proof {
        assert(count_some(lv@) == 0) by {
            lemma_count_none(lv@);
        }
    }
    let mut progressed = true;
    while progressed
        invariant
            n == ids@.len(),
            m == links@.len(),
            key@.len() == n,
            from@.len() == m,
            to@.len() == m,
            lv@.len() == n,
            forall|x: int| 0 <= x < n ==> #[trigger] key@[x] < n,
            forall|x: int| 0 <= x < m ==> (#[trigger] from@[x] matches Some(f) ==> f < n),
            consistent(lv@, key@, from@, to@),
            !progressed ==> forall|c: int|
                0 <= c < n && key@[c] == c && #[trigger] lv@[c] is None ==> !ready_upto(
                    lv@,
                    from@,
                    to@,
                    c as usize,
                    m as int,
                ),
        decreases (n - count_some(lv@)) + if progressed {
            1int
        } else {
            0int
        },
    {
        proof {
            lemma_count_some_bound(lv@);
        }
        let ghost start = lv@;
        progressed = false;
        let mut c: usize = 0;
        while c < n
            invariant
                c <= n,
                n == ids@.len(),
                m == links@.len(),
                key@.len() == n,
                from@.len() == m,
                to@.len() == m,
                lv@.len() == n,
                forall|x: int| 0 <= x < n ==> #[trigger] key@[x] < n,
                forall|x: int| 0 <= x < m ==> (#[trigger] from@[x] matches Some(f) ==> f < n),
                consistent(lv@, key@, from@, to@),
                !progressed ==> lv@ == start,
                progressed ==> count_some(lv@) > count_some(start),
                count_some(start) <= count_some(lv@),
                !progressed ==> forall|x: int|
                    0 <= x < c && key@[x] == x && #[trigger] lv@[x] is None ==> !ready_upto(
                        lv@,
                        from@,
                        to@,
                        x as usize,
                        m as int,
                    ),
            decreases n - c,
        {
            if key[c] == c && lv[c].is_none() {
                proof {
                    lemma_count_some_bound(lv@);
                }
                let mut ready = true;
                let mut best: usize = 0;
                let mut e: usize = 0;
                while e < m
                    invariant
                        e <= m,
                        c < n,
                        m == links@.len(),
                        from@.len() == m,
                        to@.len() == m,
                        lv@.len() == n,
                        n == ids@.len(),
                        count_some(lv@) <= n,
                        forall|x: int| 0 <= x < m ==> (#[trigger] from@[x] matches Some(f) ==> f < n),
                        consistent(lv@, key@, from@, to@),
                        ready == ready_upto(lv@, from@, to@, c, e as int),
                        best == depth_upto(lv@, from@, to@, c, e as int),
                        best <= count_some(lv@),
                    decreases m - e,
                {
                    if to[e] == Some(c) {
                        match from[e] {
                            Some(f) => match lv[f] {
                                Some(l) => {
                                    assert(l < count_some(lv@));
                                    if l + 1 > best {
                                        best = l + 1;
                                    }
                                },
                                None => {
                                    ready = false;
                                },
                            },
                            None => {
                                ready = false;
                            },
                        }
                    }
                    e += 1;
                }
                if ready {
                    let ghost before = lv@;
                    lv.set(c, Some(best));
                    proof {
                        lemma_count_some_update(before, c as int, best);
                        assert forall|d: int|
                            0 <= d < n && #[trigger] lv@[d] is Some implies key@[d] == d
                            && ready_upto(lv@, from@, to@, d as usize, m as int) && lv@[d]->0
                            == depth_upto(lv@, from@, to@, d as usize, m as int) && lv@[d]->0
                            < count_some(lv@) by {
                            if d != c {
                                assert(before[d] is Some);
                            }
                            lemma_depth_stable(before, lv@, from@, to@, d as usize, m as int);
                            assert forall|x: int|
                                0 <= x < m && #[trigger] to@[x] == Some(d as usize) implies from@[x] is Some
                                && lv@[from@[x]->0 as int] is Some by {
                                if d == c {
                                    assert(before[from@[x]->0 as int] is Some);
                                } else {
                                    assert(ready_upto(before, from@, to@, d as usize, m as int));
                                }
                            }
                        }
                    }
                    progressed = true;
                }
            }
            c += 1;
        }
        proof {
            lemma_count_some_bound(lv@);
        }
    }
    let mut r: Vec<Option<usize>> = Vec::new();
    let mut i: usize = 0;
    while i < n
        invariant
            i <= n,
            n == ids@.len(),
            key@.len() == n,
            lv@.len() == n,
            forall|x: int| 0 <= x < n ==> #[trigger] key@[x] < n,
            r@.len() == i,
            forall|x: int| 0 <= x < i ==> #[trigger] r@[x] == lv@[key@[x] as int],
        decreases n - i,
    {
        r.push(lv[key[i]]);
        i += 1;
    }
    proof {
        let rv = r@;
        assert forall|x: int, y: int|
            0 <= x < n && 0 <= y < n && idv[x] == idv[y] implies #[trigger] rv[x] == #[trigger] rv[y] by {
            let kx = key@[x] as int;
            let ky = key@[y] as int;
            if kx < ky {
                assert(idv[kx] == idv[y]);
            }
            if ky < kx {
                assert(idv[ky] == idv[x]);
            }
        }
        assert forall|x: int| 0 <= x < n implies (#[trigger] rv[x] is Some <==> sources_leveled(
            idv,
            lkv,
            rv,
            idv[x],
        )) && (rv[x] is Some ==> rv[x]->0 == source_depth(idv, lkv, rv, idv[x], m as int)) by {
            lemma_depth_matches(idv, lkv, key@, from@, to@, lv@, rv, x, m as int);
            let kx = key@[x] as int;
            assert(key@[kx] == kx);
        }
    }
    r
}

proof fn lemma_count_none(lv: Seq<Option<usize>>)
    requires
        forall|x: int| 0 <= x < lv.len() ==> #[trigger] lv[x] is None,
    ensures
        count_some(lv) == 0,
    decreases lv.len(),
{
    if lv.len() > 0 {
        lemma_count_none(lv.drop_last());
    }
}

} // verus!
