use openuuyc::editor::{
    arrange_levels, click_node, click_port, copy_masks, deletion_masks, describe_endpoint,
    endpoint_name,
    insert_allowed, layer_moves, layer_rows, node_name, paste_allowed, plan_paste, release_wire,
    reroute_target, rewire_links, swap_layers, validation_message, History,
};

fn ids(v: &[&str]) -> Vec<String> {
    v.iter().map(|s| s.to_string()).collect()
}

fn links(v: &[(&str, &str)]) -> Vec<(String, String)> {
    v.iter().map(|(a, b)| (a.to_string(), b.to_string())).collect()
}

#[test]
fn arrange_places_nodes_right_of_their_deepest_source() {
    let nodes = ids(&["raw", "blur", "mix", "out"]);
    let edges = links(&[("raw", "blur"), ("raw", "mix"), ("blur", "mix"), ("mix", "out")]);
    assert_eq!(
        arrange_levels(&nodes, &edges),
        vec![Some(0), Some(1), Some(2), Some(3)]
    );
}

#[test]
fn arrange_leaves_cycles_and_their_dependents_unplaced() {
    let nodes = ids(&["a", "b", "c", "d"]);
    let edges = links(&[("a", "b"), ("b", "a"), ("b", "c")]);
    assert_eq!(arrange_levels(&nodes, &edges), vec![None, None, None, Some(0)]);
}

#[test]
fn arrange_does_not_place_nodes_fed_by_missing_nodes() {
    let nodes = ids(&["a", "b"]);
    let edges = links(&[("ghost", "b")]);
    assert_eq!(arrange_levels(&nodes, &edges), vec![Some(0), None]);
}

#[test]
fn arrange_gives_repeated_ids_one_level() {
    let nodes = ids(&["a", "b", "a"]);
    let edges = links(&[("a", "b")]);
    assert_eq!(arrange_levels(&nodes, &edges), vec![Some(0), Some(1), Some(0)]);
}

#[test]
fn arrange_of_an_empty_graph_is_empty() {
    assert_eq!(arrange_levels(&[], &[]), Vec::<Option<usize>>::new());
}

#[test]
fn arrange_does_not_depend_on_node_order() {
    let a = arrange_levels(&ids(&["x", "y", "z"]), &links(&[("x", "y"), ("y", "z")]));
    let b = arrange_levels(&ids(&["z", "y", "x"]), &links(&[("x", "y"), ("y", "z")]));
    assert_eq!(a, vec![Some(0), Some(1), Some(2)]);
    assert_eq!(b, vec![Some(2), Some(1), Some(0)]);
}

#[test]
fn undo_returns_to_the_checkpoint_and_redo_comes_back() {
    let mut h: History<u32> = History::new();
    let mut doc = Some(1u32);
    h.checkpoint(doc);
    doc = Some(2);
    assert!(h.undo(&mut doc));
    assert_eq!(doc, Some(1));
    assert!(h.redo(&mut doc));
    assert_eq!(doc, Some(2));
    assert!(!h.redo(&mut doc));
    assert_eq!(doc, Some(2));
}

#[test]
fn undo_without_history_changes_nothing() {
    let mut h: History<u32> = History::new();
    let mut doc = Some(5u32);
    assert!(!h.undo(&mut doc));
    assert_eq!(doc, Some(5));
}

#[test]
fn checkpoint_clears_redo() {
    let mut h: History<u32> = History::new();
    let mut doc = Some(1u32);
    h.checkpoint(doc);
    doc = Some(2);
    assert!(h.undo(&mut doc));
    h.checkpoint(doc);
    assert!(!h.redo(&mut doc));
}

#[test]
fn history_keeps_the_last_thirty_two_snapshots() {
    let mut h: History<u32> = History::new();
    let mut doc = Some(0u32);
    for i in 0..40u32 {
        h.checkpoint(Some(i));
        doc = Some(i + 1);
    }
    let mut undone = 0;
    while h.undo(&mut doc) {
        undone += 1;
    }
    assert_eq!(undone, 32);
    assert_eq!(doc, Some(8));
}

#[test]
fn checkpoint_without_document_keeps_history() {
    let mut h: History<u32> = History::new();
    h.checkpoint(None);
    let mut doc = Some(3u32);
    assert!(!h.undo(&mut doc));
}

#[test]
fn insert_and_paste_limits() {
    assert!(insert_allowed(Some(63)));
    assert!(!insert_allowed(Some(64)));
    assert!(!insert_allowed(None));
    assert!(paste_allowed(Some((60, 250)), 4, 6));
    assert!(!paste_allowed(Some((61, 0)), 4, 0));
    assert!(!paste_allowed(Some((0, 251)), 0, 6));
    assert!(!paste_allowed(None, 0, 0));
    assert!(!paste_allowed(Some((1, 1)), usize::MAX, 0));
}

#[test]
fn deleting_selected_nodes_drops_their_links() {
    let nodes = ids(&["a", "b", "c"]);
    let edges = links(&[("a", "b"), ("b", "c"), ("a", "c")]);
    let (keep_nodes, keep_links) = deletion_masks(&nodes, &edges, &ids(&["b"]));
    assert_eq!(keep_nodes, vec![true, false, true]);
    assert_eq!(keep_links, vec![false, false, true]);
}

#[test]
fn paste_rewires_links_to_fresh_ids() {
    let clip = ids(&["n1", "n2"]);
    let clip_links = links(&[("n1", "n2")]);
    let random = [
        [70, 235, 208, 238, 14, 109, 67, 201, 185, 13, 204, 195, 90, 145, 63, 62],
        [0; 16],
        [255; 16],
    ];
    let plan = plan_paste(&clip, &clip_links, &random);
    assert_eq!(
        plan.node_ids,
        ids(&["46ebd0ee-0e6d-43c9-b90d-ccc35a913f3e", "00000000-0000-4000-8000-000000000000"])
    );
    assert_eq!(plan.link_ids, ids(&["ffffffff-ffff-4fff-bfff-ffffffffffff"]));
    assert_eq!(plan.links[0], (plan.node_ids[0].clone(), plan.node_ids[1].clone()));
}

#[test]
fn paste_maps_a_repeated_id_to_its_last_copy() {
    let clip = ids(&["n", "m", "n"]);
    let random: Vec<[u8; 16]> = (1..=4u8).map(|b| [b; 16]).collect();
    let plan = plan_paste(&clip, &links(&[("n", "m")]), &random);
    assert_eq!(plan.links[0].0, plan.node_ids[2]);
    assert_eq!(plan.links[0].1, plan.node_ids[1]);
}

#[test]
fn reroute_target_checks_the_waypoint_index() {
    let edges = ids(&["e1", "e2"]);
    assert_eq!(reroute_target(&edges, &[2, 1], "e2", 0), Some(1));
    assert_eq!(reroute_target(&edges, &[2, 1], "e2", 1), None);
    assert_eq!(reroute_target(&edges, &[2, 1], "e3", 0), None);
}

#[test]
fn node_name_prefers_the_catalog_name() {
    let types = links(&[("builtin.raw", "原始视频"), ("builtin.overlay", "叠加")]);
    assert_eq!(node_name("builtin.overlay", &types), "叠加");
    assert_eq!(node_name("plugin.unknown", &types), "plugin.unknown");
}

#[test]
fn endpoint_name_joins_node_and_port() {
    let ports = links(&[("in", "输入"), ("out", "输出")]);
    assert_eq!(describe_endpoint(Some("叠加"), &ports, "out"), "叠加 · 输出");
    assert_eq!(describe_endpoint(Some("叠加"), &ports, "aux"), "叠加 · aux");
    assert_eq!(describe_endpoint(None, &ports, "out"), "");
}

#[test]
fn endpoint_name_looks_up_the_first_node_with_the_id() {
    let node_ids = ids(&["a", "b", "a"]);
    let labels = vec![
        ("叠加".to_string(), links(&[("out", "输出")])),
        ("原始视频".to_string(), links(&[])),
        ("其他".to_string(), links(&[("out", "别名")])),
    ];
    assert_eq!(endpoint_name(&node_ids, &labels, "a", "out"), "叠加 · 输出");
    assert_eq!(endpoint_name(&node_ids, &labels, "b", "frames"), "原始视频 · frames");
    assert_eq!(endpoint_name(&node_ids, &labels, "gone", "out"), "");
}

#[test]
fn copy_takes_selected_nodes_and_links_inside_the_selection() {
    let (nodes, kept) = copy_masks(
        &ids(&["a", "b", "c"]),
        &links(&[("a", "b"), ("b", "c"), ("c", "a")]),
        &ids(&["a", "b"]),
    );
    assert_eq!(nodes, vec![true, true, false]);
    assert_eq!(kept, vec![true, false, false]);
}

fn sorted(mut v: Vec<String>) -> Vec<String> {
    v.sort();
    v
}

#[test]
fn click_selects_only_the_clicked_node() {
    let mut selected = ids(&["a", "b"]);
    click_node(&mut selected, "c", false);
    assert_eq!(selected, ids(&["c"]));
}

#[test]
fn ctrl_click_toggles_membership() {
    let mut selected = ids(&["a", "b"]);
    click_node(&mut selected, "c", true);
    assert_eq!(sorted(selected.clone()), ids(&["a", "b", "c"]));
    click_node(&mut selected, "a", true);
    assert_eq!(sorted(selected.clone()), ids(&["b", "c"]));
    click_node(&mut selected, "a", true);
    click_node(&mut selected, "a", true);
    assert_eq!(sorted(selected), ids(&["b", "c"]));
}

#[test]
fn clicking_ports_of_opposite_kinds_links_output_to_input() {
    let (wire, link) = click_port(None, "in", false);
    assert_eq!(wire, Some(("in", false)));
    assert_eq!(link, None);
    let (wire, link) = click_port(wire, "out", true);
    assert_eq!(wire, None);
    assert_eq!(link, Some(("out", "in")));
    let (wire, link) = click_port(Some(("out", true)), "in", false);
    assert_eq!((wire, link), (None, Some(("out", "in"))));
}

#[test]
fn clicking_a_port_of_the_same_kind_restarts_the_wire() {
    let (wire, link) = click_port(Some(("a", true)), "b", true);
    assert_eq!(wire, Some(("b", true)));
    assert_eq!(link, None);
}

#[test]
fn releasing_a_wire_puts_the_output_first() {
    assert_eq!(release_wire("out", true, "in"), ("out", "in"));
    assert_eq!(release_wire("in", false, "out"), ("out", "in"));
}

#[test]
fn layer_rows_move_within_the_list() {
    assert_eq!(layer_moves(0, 3), (false, true));
    assert_eq!(layer_moves(1, 3), (true, true));
    assert_eq!(layer_moves(2, 3), (true, false));
    assert_eq!(layer_moves(0, 1), (false, false));
}

#[test]
fn swapping_layers_renumbers_top_first() {
    assert_eq!(swap_layers(3, 0, 1), vec![(1, 2), (0, 1), (2, 0)]);
    assert_eq!(swap_layers(2, 1, 0), vec![(1, 1), (0, 0)]);
}

#[test]
fn undo_and_redo_buttons_follow_the_stacks() {
    let mut h: History<u32> = History::new();
    assert!(!h.can_undo() && !h.can_redo());
    h.checkpoint(Some(1));
    assert!(h.can_undo() && !h.can_redo());
    let mut doc = Some(2);
    h.undo(&mut doc);
    assert!(!h.can_undo() && h.can_redo());
}

#[test]
fn rewiring_follows_the_given_ids() {
    let links = rewire_links(
        &ids(&["a", "b", "a"]),
        &links(&[("a", "b"), ("b", "a")]),
        &ids(&["n1", "n2", "n3"]),
    );
    assert_eq!(
        links,
        vec![
            ("n3".to_string(), "n2".to_string()),
            ("n2".to_string(), "n3".to_string())
        ]
    );
}

fn layers(v: &[(u32, &str)]) -> Vec<(u32, String)> {
    v.iter().map(|(o, id)| (*o, id.to_string())).collect()
}

#[test]
fn layer_rows_list_the_top_layer_first() {
    assert_eq!(layer_rows(&layers(&[(0, "a"), (2, "b"), (1, "c")])), vec![1, 2, 0]);
    assert_eq!(layer_rows(&layers(&[(1, "z"), (1, "a"), (5, "m")])), vec![2, 1, 0]);
    assert_eq!(layer_rows(&layers(&[(3, "same"), (3, "same")])), vec![0, 1]);
    assert!(layer_rows(&[]).is_empty());
}

#[test]
fn renumbered_layers_list_in_the_swapped_order() {
    let shown = layer_rows(&layers(&[(0, "a"), (2, "b"), (1, "c")]));
    let mut orders = vec![0u32; 3];
    for (row, order) in swap_layers(3, 0, 1) {
        orders[shown[row]] = order;
    }
    let renumbered: Vec<(u32, String)> =
        orders.iter().zip(["a", "b", "c"]).map(|(o, id)| (*o, id.to_string())).collect();
    assert_eq!(layer_rows(&renumbered), vec![2, 1, 0]);
}

#[test]
fn validation_messages() {
    assert_eq!(validation_message(&Ok(vec![])), "校验通过");
    assert_eq!(
        validation_message(&Ok(ids(&["w1", "w2"]))),
        "校验通过\nw1\nw2"
    );
    assert_eq!(validation_message(&Err(ids(&["e1", "e2"]))), "e1\ne2");
    assert_eq!(validation_message(&Err(vec![])), "");
}
