//! The node-graph editor's session: the structure of the graph being edited,
//! its undo history, and the selection, pending wire and waypoint selection
//! that undo, redo, deletion and arranging reset. Node positions and
//! waypoint coordinates are floating point and stay with the caller; a link
//! here records how many waypoints it has.
use crate::editor::{
    arrange_levels, checkpointed, contains_id, id_views, is_layering, link_views, redone, undone,
    History, HistoryModel,
};
use vstd::prelude::*;

verus! {

/// A link of the graph: its id, the ids of the nodes it leaves and enters,
/// and the number of its waypoints.
pub struct Link {
    pub id: String,
    pub from: String,
    pub to: String,
    pub waypoints: usize,
}

/// The structure of a node graph: node ids in order, and links.
pub struct Graph {
    pub nodes: Vec<String>,
    pub links: Vec<Link>,
}

pub struct LinkModel {
    pub id: Seq<char>,
    pub from: Seq<char>,
    pub to: Seq<char>,
    pub waypoints: usize,
}

#[verifier::ext_equal]
pub struct GraphModel {
    pub nodes: Seq<Seq<char>>,
    pub links: Seq<LinkModel>,
}

impl View for Link {
    type V = LinkModel;

    open spec fn view(&self) -> LinkModel {
        LinkModel { id: self.id@, from: self.from@, to: self.to@, waypoints: self.waypoints }
    }
}

pub open spec fn link_models(links: Seq<Link>) -> Seq<LinkModel> {
    links.map_values(|l: Link| l@)
}

impl View for Graph {
    type V = GraphModel;

    open spec fn view(&self) -> GraphModel {
        GraphModel { nodes: id_views(self.nodes@), links: link_models(self.links@) }
    }
}

pub open spec fn graph_model(d: Option<Graph>) -> Option<GraphModel> {
    match d {
        Some(g) => Some(g@),
        None => None,
    }
}

pub open spec fn graph_models(s: Seq<Graph>) -> Seq<GraphModel> {
    s.map_values(|g: Graph| g@)
}

/// The history as the graphs its snapshots describe.
pub open spec fn history_model(h: HistoryModel<Graph>) -> HistoryModel<GraphModel> {
    HistoryModel { undo: graph_models(h.undo), redo: graph_models(h.redo) }
}

fn copy_text(s: &String) -> (r: String)
    ensures
        r@ == s@,
{
    s.clone()
}

fn copy_ids(ids: &[String]) -> (r: Vec<String>)
    ensures
        id_views(r@) == id_views(ids@),
{
    let mut out: Vec<String> = Vec::new();
    let mut i: usize = 0;
    while i < ids.len()
        invariant
            i <= ids@.len(),
            id_views(out@) == id_views(ids@.take(i as int)),
        decreases ids@.len() - i,
    {
        out.push(copy_text(&ids[i]));
        assert(id_views(ids@.take(i + 1)) =~= id_views(ids@.take(i as int)).push(ids@[i as int]@));
        assert(id_views(out@) =~= id_views(ids@.take(i + 1)));
        i += 1;
    }
    assert(ids@.take(ids@.len() as int) =~= ids@);
    out
}

impl Link {
    pub fn copy(&self) -> (r: Link)
        ensures
            r@ == self@,
    {
        Link {
            id: copy_text(&self.id),
            from: copy_text(&self.from),
            to: copy_text(&self.to),
            waypoints: self.waypoints,
        }
    }
}

impl Graph {
    /// A copy of the graph, as a snapshot for the history.
    pub fn copy(&self) -> (r: Graph)
        ensures
            r@ == self@,
    {
        let nodes = copy_ids(self.nodes.as_slice());
        let mut links: Vec<Link> = Vec::new();
        let mut i: usize = 0;
        while i < self.links.len()
            invariant
                i <= self.links@.len(),
                link_models(links@) == link_models(self.links@.take(i as int)),
            decreases self.links@.len() - i,
        {
            links.push(self.links[i].copy());
            assert(link_models(self.links@.take(i + 1)) =~= link_models(self.links@.take(i as int)).push(
                self.links@[i as int]@,
            ));
            assert(link_models(links@) =~= link_models(self.links@.take(i + 1)));
            i += 1;
        }
        assert(self.links@.take(self.links@.len() as int) =~= self.links@);
        let r = Graph { nodes, links };
        assert(r@ =~= self@);
        r
    }
}

// ---- Removal -----------------------------------------------------------------
/// The ids of `s` not in `gone`, in order.
pub open spec fn kept_ids(s: Seq<Seq<char>>, gone: Seq<Seq<char>>) -> Seq<Seq<char>>
    decreases s.len(),
{
    if s.len() == 0 {
        Seq::empty()
    } else if contains_id(gone, s.last()) {
        kept_ids(s.drop_last(), gone)
    } else {
        kept_ids(s.drop_last(), gone).push(s.last())
    }
}

/// A link survives removing the nodes `gone_nodes` and the links `gone_links`
/// unless it is one of those links or touches one of those nodes.
pub open spec fn survives(l: LinkModel, gone_nodes: Seq<Seq<char>>, gone_links: Seq<Seq<char>>) -> bool {
    !contains_id(gone_links, l.id) && !contains_id(gone_nodes, l.from) && !contains_id(
        gone_nodes,
        l.to,
    )
}

pub open spec fn kept_links(
    s: Seq<LinkModel>,
    gone_nodes: Seq<Seq<char>>,
    gone_links: Seq<Seq<char>>,
) -> Seq<LinkModel>
    decreases s.len(),
{
    if s.len() == 0 {
        Seq::empty()
    } else if survives(s.last(), gone_nodes, gone_links) {
        kept_links(s.drop_last(), gone_nodes, gone_links).push(s.last())
    } else {
        kept_links(s.drop_last(), gone_nodes, gone_links)
    }
}

/// The graph without the nodes `gone_nodes`, the links `gone_links`, and
/// every link touching a removed node.
pub open spec fn pruned(g: GraphModel, gone_nodes: Seq<Seq<char>>, gone_links: Seq<Seq<char>>) -> GraphModel {
    GraphModel { nodes: kept_ids(g.nodes, gone_nodes), links: kept_links(g.links, gone_nodes, gone_links) }
}

fn holds(set: &[String], id: &String) -> (b: bool)
    ensures
        b == contains_id(id_views(set@), id@),
{
    let mut j: usize = 0;
    while j < set.len()
        invariant
            j <= set@.len(),
            forall|x: int| 0 <= x < j ==> #[trigger] id_views(set@)[x] != id@,
        decreases set@.len() - j,
    {
        if crate::text::str_eq(set[j].as_str(), id.as_str()) {
            assert(id_views(set@)[j as int] == id@);
            return true;
        }
        j += 1;
    }
    false
}

fn keep_ids(ids: &[String], gone: &[String]) -> (r: Vec<String>)
    ensures
        id_views(r@) == kept_ids(id_views(ids@), id_views(gone@)),
{
    let mut out: Vec<String> = Vec::new();
    let mut i: usize = 0;
    while i < ids.len()
        invariant
            i <= ids@.len(),
            id_views(out@) == kept_ids(id_views(ids@.take(i as int)), id_views(gone@)),
        decreases ids@.len() - i,
    {
        let ghost prefix = id_views(ids@.take(i + 1));
        assert(prefix.drop_last() =~= id_views(ids@.take(i as int)));
        assert(prefix.last() == ids@[i as int]@);
        let ghost before = out@;
        if !holds(gone, &ids[i]) {
            out.push(copy_text(&ids[i]));
            assert(id_views(out@) =~= id_views(before).push(ids@[i as int]@));
        }
        i += 1;
    }
    assert(ids@.take(ids@.len() as int) =~= ids@);
    out
}

fn keep_links(links: &[Link], gone_nodes: &[String], gone_links: &[String]) -> (r: Vec<Link>)
    ensures
        link_models(r@) == kept_links(link_models(links@), id_views(gone_nodes@), id_views(gone_links@)),
{
    let ghost gn = id_views(gone_nodes@);
    let ghost gl = id_views(gone_links@);
    let mut out: Vec<Link> = Vec::new();
    let mut i: usize = 0;
    while i < links.len()
        invariant
            i <= links@.len(),
            gn == id_views(gone_nodes@),
            gl == id_views(gone_links@),
            link_models(out@) == kept_links(link_models(links@.take(i as int)), gn, gl),
        decreases links@.len() - i,
    {
        let ghost prefix = link_models(links@.take(i + 1));
        assert(prefix.drop_last() =~= link_models(links@.take(i as int)));
        assert(prefix.last() == links@[i as int]@);
        let l = &links[i];
        let keep = !holds(gone_links, &l.id) && !holds(gone_nodes, &l.from) && !holds(
            gone_nodes,
            &l.to,
        );
        let ghost before = out@;
        if keep {
            out.push(l.copy());
            assert(link_models(out@) =~= link_models(before).push(links@[i as int]@));
        }
        i += 1;
    }
    assert(links@.take(links@.len() as int) =~= links@);
    out
}

fn prune_graph(g: &Graph, gone_nodes: &[String], gone_links: &[String]) -> (r: Graph)
    ensures
        r@ == pruned(g@, id_views(gone_nodes@), id_views(gone_links@)),
{
    let r = Graph {
        nodes: keep_ids(g.nodes.as_slice(), gone_nodes),
        links: keep_links(g.links.as_slice(), gone_nodes, gone_links),
    };
    assert(r@ =~= pruned(g@, id_views(gone_nodes@), id_views(gone_links@)));
    r
}

proof fn lemma_kept_ids_contains(s: Seq<Seq<char>>, gone: Seq<Seq<char>>, x: Seq<char>)
    ensures
        contains_id(kept_ids(s, gone), x) == (contains_id(s, x) && !contains_id(gone, x)),
    decreases s.len(),
{
    if s.len() > 0 {
        let rest = s.drop_last();
        lemma_kept_ids_contains(rest, gone, x);
        let k = kept_ids(rest, gone);
        if contains_id(s, x) {
            let j = choose|j: int| 0 <= j < s.len() && s[j] == x;
            if j < s.len() - 1 {
                assert(rest[j] == x);
            }
        }
        if contains_id(rest, x) {
            let j = choose|j: int| 0 <= j < rest.len() && rest[j] == x;
            assert(s[j] == x);
        }
        if !contains_id(gone, s.last()) {
            let kk = k.push(s.last());
            assert(kk[k.len() as int] == s.last());
            if contains_id(kk, x) {
                let j = choose|j: int| 0 <= j < kk.len() && kk[j] == x;
                if j < k.len() {
                    assert(k[j] == x);
                }
            }
            if contains_id(k, x) {
                let j = choose|j: int| 0 <= j < k.len() && k[j] == x;
                assert(kk[j] == x);
            }
        }
    }
}

proof fn lemma_kept_links_survive(
    s: Seq<LinkModel>,
    gone_nodes: Seq<Seq<char>>,
    gone_links: Seq<Seq<char>>,
    k: int,
)
    requires
        0 <= k < kept_links(s, gone_nodes, gone_links).len(),
    ensures
        survives(kept_links(s, gone_nodes, gone_links)[k], gone_nodes, gone_links),
        exists|j: int| 0 <= j < s.len() && s[j] == kept_links(s, gone_nodes, gone_links)[k],
    decreases s.len(),
{
    let rest = s.drop_last();
    let kr = kept_links(rest, gone_nodes, gone_links);
    if k < kr.len() {
        lemma_kept_links_survive(rest, gone_nodes, gone_links, k);
        let j = choose|j: int| 0 <= j < rest.len() && rest[j] == kr[k];
        assert(s[j] == kr[k]);
    } else {
        assert(s[s.len() - 1] == s.last());
    }
}

/// Removal leaves no dangling link: where every link joined nodes of the
/// graph, every remaining link joins remaining nodes.
pub proof fn lemma_removal_leaves_no_dangling_link(
    g: GraphModel,
    gone_nodes: Seq<Seq<char>>,
    gone_links: Seq<Seq<char>>,
)
    requires
        forall|k: int|
            0 <= k < g.links.len() ==> contains_id(g.nodes, #[trigger] g.links[k].from)
                && contains_id(g.nodes, g.links[k].to),
    ensures
        forall|k: int|
            0 <= k < pruned(g, gone_nodes, gone_links).links.len() ==> contains_id(
                pruned(g, gone_nodes, gone_links).nodes,
                #[trigger] pruned(g, gone_nodes, gone_links).links[k].from,
            ) && contains_id(
                pruned(g, gone_nodes, gone_links).nodes,
                pruned(g, gone_nodes, gone_links).links[k].to,
            ),
{
    let p = pruned(g, gone_nodes, gone_links);
    assert forall|k: int| 0 <= k < p.links.len() implies contains_id(
        p.nodes,
        #[trigger] p.links[k].from,
    ) && contains_id(p.nodes, p.links[k].to) by {
        lemma_kept_links_survive(g.links, gone_nodes, gone_links, k);
        let j = choose|j: int| 0 <= j < g.links.len() && g.links[j] == p.links[k];
        assert(contains_id(g.nodes, g.links[j].from) && contains_id(g.nodes, g.links[j].to));
        lemma_kept_ids_contains(g.nodes, gone_nodes, p.links[k].from);
        lemma_kept_ids_contains(g.nodes, gone_nodes, p.links[k].to);
    }
}

/// A removed node is in no remaining selection, and a selected node that
/// was not removed stays selected.
pub proof fn lemma_pruned_selection(sel: Seq<Seq<char>>, gone: Seq<Seq<char>>, x: Seq<char>)
    ensures
        contains_id(kept_ids(sel, gone), x) == (contains_id(sel, x) && !contains_id(gone, x)),
{
    lemma_kept_ids_contains(sel, gone, x);
}

// ---- History over graph snapshots -------------------------------------------
proof fn lemma_models_push(s: Seq<Graph>, g: Graph)
    ensures
        graph_models(s.push(g)) == graph_models(s).push(g@),
{
    assert(graph_models(s.push(g)) =~= graph_models(s).push(g@));
}

proof fn lemma_history_checkpointed(h: HistoryModel<Graph>, d: Option<Graph>)
    ensures
        history_model(checkpointed(h, d)) == checkpointed(history_model(h), graph_model(d)),
{
    match d {
        Some(g) => {
            lemma_models_push(h.undo, g);
            assert(graph_models(h.undo.push(g).skip(1)) =~= graph_models(h.undo).push(g@).skip(1));
            assert(graph_models(Seq::<Graph>::empty()) =~= Seq::<GraphModel>::empty());
            assert(history_model(checkpointed(h, d)) =~= checkpointed(history_model(h), graph_model(d)));
        },
        None => {},
    }
}

proof fn lemma_history_undone(h: HistoryModel<Graph>, d: Option<Graph>)
    ensures
        history_model(undone(h, d).0) == undone(history_model(h), graph_model(d)).0,
        graph_model(undone(h, d).1) == undone(history_model(h), graph_model(d)).1,
{
    if h.undo.len() > 0 {
        assert(graph_models(h.undo.drop_last()) =~= graph_models(h.undo).drop_last());
        match d {
            Some(g) => lemma_models_push(h.redo, g),
            None => {},
        }
        assert(history_model(undone(h, d).0) =~= undone(history_model(h), graph_model(d)).0);
    }
}

proof fn lemma_history_redone(h: HistoryModel<Graph>, d: Option<Graph>)
    ensures
        history_model(redone(h, d).0) == redone(history_model(h), graph_model(d)).0,
        graph_model(redone(h, d).1) == redone(history_model(h), graph_model(d)).1,
{
    if h.redo.len() > 0 {
        assert(graph_models(h.redo.drop_last()) =~= graph_models(h.redo).drop_last());
        match d {
            Some(g) => lemma_models_push(h.undo, g),
            None => {},
        }
        assert(history_model(redone(h, d).0) =~= redone(history_model(h), graph_model(d)).0);
    }
}

// ---- The session ------------------------------------------------------------
/// What the editor holds between frames: the undo history, the graph being
/// edited, the selected node ids, the wire being drawn from a port (node,
/// port, whether it is an output), the selected waypoint (link id, index)
/// and the parameter field being edited.
pub struct EditorSession {
    pub history: History<Graph>,
    pub document: Option<Graph>,
    pub selected: Vec<String>,
    pub wire: Option<(String, String, bool)>,
    pub reroute_selection: Option<(String, usize)>,
    pub parameter_edit: Option<u64>,
}

/// Links as `(from, to)` node-id pairs, for arranging.
pub open spec fn link_ends(links: Seq<LinkModel>) -> Seq<(Seq<char>, Seq<char>)> {
    links.map_values(|l: LinkModel| (l.from, l.to))
}

/// The graph's links with their waypoints dropped.
pub open spec fn without_waypoints(links: Seq<LinkModel>) -> Seq<LinkModel> {
    links.map_values(|l: LinkModel| LinkModel { id: l.id, from: l.from, to: l.to, waypoints: 0 })
}

impl EditorSession {
    /// A session editing `document`, with no history and nothing selected.
    pub fn new(document: Option<Graph>) -> (s: Self)
        ensures
            s.history.wf(),
            s.history@.undo.len() == 0,
            s.history@.redo.len() == 0,
            graph_model(s.document) == graph_model(document),
            s.selected@.len() == 0,
            s.wire is None,
            s.reroute_selection is None,
            s.parameter_edit is None,
    {
        EditorSession {
            history: History::new(),
            document,
            selected: Vec::new(),
            wire: None,
            reroute_selection: None,
            parameter_edit: None,
        }
    }

    /// Records the graph as it is before an edit.
    pub fn checkpoint(&mut self)
        requires
            old(self).history.wf(),
        ensures
            final(self).history.wf(),
            history_model(final(self).history@) == checkpointed(
                history_model(old(self).history@),
                graph_model(old(self).document),
            ),
            graph_model(final(self).document) == graph_model(old(self).document),
            final(self).selected@ == old(self).selected@,
            final(self).wire == old(self).wire,
            final(self).reroute_selection == old(self).reroute_selection,
            final(self).parameter_edit == old(self).parameter_edit,
    {
        let snapshot = match &self.document {
            Some(g) => Some(g.copy()),
            None => None,
        };
        proof {
            lemma_history_checkpointed(self.history@, snapshot);
            assert(graph_model(snapshot) == graph_model(self.document));
        }
        self.history.checkpoint(snapshot);
    }

    /// Undo: the newest snapshot becomes the graph (the graph it replaces
    /// goes onto the redo stack), and then nothing is selected, no wire is
    /// drawn and no waypoint is selected. The parameter field being edited
    /// is always let go.
    pub fn undo(&mut self)
        requires
            old(self).history.wf(),
        ensures
            final(self).history.wf(),
            (history_model(final(self).history@), graph_model(final(self).document)) == undone(
                history_model(old(self).history@),
                graph_model(old(self).document),
            ),
            final(self).parameter_edit is None,
            old(self).history@.undo.len() > 0 ==> final(self).selected@.len() == 0
                && final(self).wire is None && final(self).reroute_selection is None,
            old(self).history@.undo.len() == 0 ==> final(self).selected@ == old(self).selected@
                && final(self).wire == old(self).wire && final(self).reroute_selection == old(
                self,
            ).reroute_selection,
    {
        proof {
            lemma_history_undone(self.history@, self.document);
        }
        self.parameter_edit = None;
        let changed = self.history.undo(&mut self.document);
        if changed {
            self.selected = Vec::new();
            self.wire = None;
            self.reroute_selection = None;
        }
    }

    /// Redo, the mirror of undo.
    pub fn redo(&mut self)
        requires
            old(self).history.wf(),
        ensures
            final(self).history.wf(),
            (history_model(final(self).history@), graph_model(final(self).document)) == redone(
                history_model(old(self).history@),
                graph_model(old(self).document),
            ),
            final(self).parameter_edit is None,
            old(self).history@.redo.len() > 0 ==> final(self).selected@.len() == 0
                && final(self).wire is None && final(self).reroute_selection is None,
            old(self).history@.redo.len() == 0 ==> final(self).selected@ == old(self).selected@
                && final(self).wire == old(self).wire && final(self).reroute_selection == old(
                self,
            ).reroute_selection,
    {
        proof {
            lemma_history_redone(self.history@, self.document);
        }
        self.parameter_edit = None;
        let changed = self.history.redo(&mut self.document);
        if changed {
            self.selected = Vec::new();
            self.wire = None;
            self.reroute_selection = None;
        }
    }

    /// Removes the nodes `gone_nodes` and the links `gone_links` chosen in the
    /// canvas menus, with every link touching a removed node, after a
    /// checkpoint; removed nodes leave the selection, and the pending wire and
    /// waypoint selection are dropped. Nothing happens when nothing is to be
    /// removed.
    pub fn remove(&mut self, gone_nodes: &[String], gone_links: &[String])
        requires
            old(self).history.wf(),
            gone_nodes@.len() > 0 || gone_links@.len() > 0 ==> old(self).document is Some,
        ensures
            final(self).history.wf(),
            gone_nodes@.len() == 0 && gone_links@.len() == 0 ==> graph_model(final(self).document)
                == graph_model(old(self).document) && history_model(final(self).history@)
                == history_model(old(self).history@) && final(self).selected@ == old(
                self,
            ).selected@ && final(self).wire == old(self).wire && final(self).reroute_selection
                == old(self).reroute_selection,
            gone_nodes@.len() > 0 || gone_links@.len() > 0 ==> {
                &&& history_model(final(self).history@) == checkpointed(
                    history_model(old(self).history@),
                    graph_model(old(self).document),
                )
                &&& graph_model(final(self).document) == Some(
                    pruned(
                        old(self).document->Some_0@,
                        id_views(gone_nodes@),
                        id_views(gone_links@),
                    ),
                )
                &&& id_views(final(self).selected@) == kept_ids(
                    id_views(old(self).selected@),
                    id_views(gone_nodes@),
                )
                &&& final(self).wire is None
                &&& final(self).reroute_selection is None
            },
            final(self).parameter_edit == old(self).parameter_edit,
    {
        if gone_nodes.len() == 0 && gone_links.len() == 0 {
            return;
        }
        self.checkpoint();
        let next = match &self.document {
            Some(g) => Some(prune_graph(g, gone_nodes, gone_links)),
            None => None,
        };
        self.document = next;
        self.selected = keep_ids(self.selected.as_slice(), gone_nodes);
        self.wire = None;
        self.reroute_selection = None;
    }

    /// Deletes the selected nodes and every link touching them, after a
    /// checkpoint; then nothing is selected and no wire is drawn. Nothing
    /// happens when nothing is selected.
    pub fn delete_selected(&mut self)
        requires
            old(self).history.wf(),
            old(self).selected@.len() > 0 ==> old(self).document is Some,
        ensures
            final(self).history.wf(),
            old(self).selected@.len() == 0 ==> graph_model(final(self).document) == graph_model(
                old(self).document,
            ) && history_model(final(self).history@) == history_model(old(self).history@)
                && final(self).wire == old(self).wire,
            old(self).selected@.len() > 0 ==> {
                &&& history_model(final(self).history@) == checkpointed(
                    history_model(old(self).history@),
                    graph_model(old(self).document),
                )
                &&& graph_model(final(self).document) == Some(
                    pruned(
                        old(self).document->Some_0@,
                        id_views(old(self).selected@),
                        Seq::<Seq<char>>::empty(),
                    ),
                )
                &&& final(self).selected@.len() == 0
                &&& final(self).wire is None
            },
            final(self).reroute_selection == old(self).reroute_selection,
            final(self).parameter_edit == old(self).parameter_edit,
    {
        if self.selected.len() == 0 {
            return;
        }
        self.checkpoint();
        let none: Vec<String> = Vec::new();
        assert(id_views(none@) =~= Seq::<Seq<char>>::empty());
        let next = match &self.document {
            Some(g) => Some(prune_graph(g, self.selected.as_slice(), none.as_slice())),
            None => None,
        };
        self.document = next;
        self.selected = Vec::new();
        self.wire = None;
    }

    /// Arranges the graph after a checkpoint: every link loses its
    /// waypoints, the waypoint selection is dropped, and the columns of the
    /// nodes are returned (the caller places the nodes by them). Without a
    /// graph nothing changes and no columns are returned.
    pub fn arrange(&mut self) -> (levels: Vec<Option<usize>>)
        requires
            old(self).history.wf(),
        ensures
            final(self).history.wf(),
            history_model(final(self).history@) == checkpointed(
                history_model(old(self).history@),
                graph_model(old(self).document),
            ),
            final(self).selected@ == old(self).selected@,
            final(self).wire == old(self).wire,
            final(self).parameter_edit == old(self).parameter_edit,
            match old(self).document {
                None => final(self).document is None && levels@.len() == 0
                    && final(self).reroute_selection == old(self).reroute_selection,
                Some(g) => graph_model(final(self).document) == Some(
                    GraphModel { nodes: g@.nodes, links: without_waypoints(g@.links) },
                ) && is_layering(g@.nodes, link_ends(g@.links), levels@)
                    && final(self).reroute_selection is None,
            },
    {
        self.checkpoint();
        let doc = match &self.document {
            Some(g) => g,
            None => {
                return Vec::new();
            },
        };
        let mut ends: Vec<(String, String)> = Vec::new();
        let mut links: Vec<Link> = Vec::new();
        let mut i: usize = 0;
        while i < doc.links.len()
            invariant
                i <= doc.links@.len(),
                link_views(ends@) == link_ends(link_models(doc.links@.take(i as int))),
                link_models(links@) == without_waypoints(link_models(doc.links@.take(i as int))),
            decreases doc.links@.len() - i,
        {
            let l = &doc.links[i];
            let ghost ends_before = ends@;
            let ghost links_before = links@;
            let ghost prefix = link_models(doc.links@.take(i as int));
            ends.push((copy_text(&l.from), copy_text(&l.to)));
            links.push(
                Link {
                    id: copy_text(&l.id),
                    from: copy_text(&l.from),
                    to: copy_text(&l.to),
                    waypoints: 0,
                },
            );
            assert(link_models(doc.links@.take(i + 1)) =~= prefix.push(l@));
            assert(link_views(ends@) =~= link_views(ends_before).push((l.from@, l.to@)));
            assert(link_ends(prefix.push(l@)) =~= link_ends(prefix).push((l.from@, l.to@)));
            assert(link_models(links@) =~= link_models(links_before).push(
                LinkModel { id: l.id@, from: l.from@, to: l.to@, waypoints: 0 },
            ));
            assert(without_waypoints(prefix.push(l@)) =~= without_waypoints(prefix).push(
                LinkModel { id: l.id@, from: l.from@, to: l.to@, waypoints: 0 },
            ));
            assert(link_views(ends@) =~= link_ends(link_models(doc.links@.take(i + 1))));
            assert(link_models(links@) =~= without_waypoints(link_models(doc.links@.take(i + 1))));
            i += 1;
        }
        assert(doc.links@.take(doc.links@.len() as int) =~= doc.links@);
        let levels = arrange_levels(doc.nodes.as_slice(), ends.as_slice());
        let nodes = copy_ids(doc.nodes.as_slice());
        let next = Graph { nodes, links };
        assert(next@ =~= GraphModel { nodes: doc@.nodes, links: without_waypoints(doc@.links) });
        self.document = Some(next);
        self.reroute_selection = None;
        levels
    }
}

} // verus!
