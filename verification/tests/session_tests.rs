use openuuyc::graph_session::{EditorSession, Graph, Link};

fn s(v: &str) -> String {
    v.to_string()
}

fn link(id: &str, from: &str, to: &str, waypoints: usize) -> Link {
    Link { id: s(id), from: s(from), to: s(to), waypoints }
}

fn graph() -> Graph {
    Graph {
        nodes: vec![s("a"), s("b"), s("c")],
        links: vec![link("l1", "a", "b", 2), link("l2", "b", "c", 0), link("l3", "a", "c", 1)],
    }
}

fn node_ids(g: &Graph) -> Vec<&str> {
    g.nodes.iter().map(|n| n.as_str()).collect()
}

fn link_ids(g: &Graph) -> Vec<&str> {
    g.links.iter().map(|l| l.id.as_str()).collect()
}

#[test]
fn removing_a_node_drops_its_links_and_selection() {
    let mut e = EditorSession::new(Some(graph()));
    e.selected = vec![s("b"), s("c")];
    e.wire = Some((s("a"), s("out"), true));
    e.reroute_selection = Some((s("l1"), 0));
    e.remove(&[s("b")], &[]);
    let g = e.document.as_ref().unwrap();
    assert_eq!(node_ids(g), vec!["a", "c"]);
    assert_eq!(link_ids(g), vec!["l3"]);
    assert_eq!(e.selected, vec![s("c")]);
    assert!(e.wire.is_none() && e.reroute_selection.is_none());
    e.undo();
    let g = e.document.as_ref().unwrap();
    assert_eq!(node_ids(g), vec!["a", "b", "c"]);
    assert_eq!(link_ids(g), vec!["l1", "l2", "l3"]);
    assert!(e.selected.is_empty());
}

#[test]
fn disconnecting_links_keeps_the_nodes() {
    let mut e = EditorSession::new(Some(graph()));
    e.remove(&[], &[s("l1"), s("l3")]);
    let g = e.document.as_ref().unwrap();
    assert_eq!(node_ids(g), vec!["a", "b", "c"]);
    assert_eq!(link_ids(g), vec!["l2"]);
}

#[test]
fn removing_nothing_changes_nothing() {
    let mut e = EditorSession::new(Some(graph()));
    e.wire = Some((s("a"), s("out"), true));
    e.remove(&[], &[]);
    assert!(e.wire.is_some());
    e.undo();
    assert_eq!(link_ids(e.document.as_ref().unwrap()), vec!["l1", "l2", "l3"]);
}

#[test]
fn deleting_the_selection() {
    let mut e = EditorSession::new(Some(graph()));
    e.selected = vec![s("a")];
    e.reroute_selection = Some((s("l2"), 0));
    e.delete_selected();
    let g = e.document.as_ref().unwrap();
    assert_eq!(node_ids(g), vec!["b", "c"]);
    assert_eq!(link_ids(g), vec!["l2"]);
    assert!(e.selected.is_empty());
    assert!(e.reroute_selection.is_some());
}

#[test]
fn undo_after_an_edit_restores_it_and_resets_the_interaction() {
    let mut e = EditorSession::new(Some(graph()));
    e.parameter_edit = Some(7);
    e.delete_selected();
    e.selected = vec![s("c")];
    e.remove(&[s("c")], &[]);
    e.selected = vec![s("a")];
    e.wire = Some((s("a"), s("out"), true));
    e.undo();
    assert_eq!(node_ids(e.document.as_ref().unwrap()), vec!["a", "b", "c"]);
    assert!(e.selected.is_empty() && e.wire.is_none() && e.reroute_selection.is_none());
    assert_eq!(e.parameter_edit, None);
    e.redo();
    assert_eq!(node_ids(e.document.as_ref().unwrap()), vec!["a", "b"]);
}

#[test]
fn undo_without_history_only_lets_go_of_the_parameter_field() {
    let mut e = EditorSession::new(Some(graph()));
    e.selected = vec![s("a")];
    e.parameter_edit = Some(1);
    e.undo();
    assert_eq!(e.selected, vec![s("a")]);
    assert_eq!(e.parameter_edit, None);
}

#[test]
fn arranging_clears_waypoints_and_can_be_undone() {
    let mut e = EditorSession::new(Some(graph()));
    e.reroute_selection = Some((s("l1"), 1));
    let levels = e.arrange();
    assert_eq!(levels, vec![Some(0), Some(1), Some(2)]);
    let g = e.document.as_ref().unwrap();
    assert!(g.links.iter().all(|l| l.waypoints == 0));
    assert!(e.reroute_selection.is_none());
    e.undo();
    let g = e.document.as_ref().unwrap();
    let waypoints: Vec<usize> = g.links.iter().map(|l| l.waypoints).collect();
    assert_eq!(waypoints, vec![2, 0, 1]);
}

#[test]
fn arranging_without_a_graph_does_nothing() {
    let mut e = EditorSession::new(None);
    assert!(e.arrange().is_empty());
    assert!(e.document.is_none());
}
