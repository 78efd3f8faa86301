use openuuyc::node_library::{drop_outcome, library_shelves, DropOutcome};

fn cats(v: &[&str]) -> Vec<String> {
    v.iter().map(|s| s.to_string()).collect()
}

#[test]
fn shelves_are_sorted_by_name_and_keep_catalog_order() {
    let shelves = library_shelves(&cats(&["视频", "", "AI", "视频", "AI", ""]));
    let view: Vec<(String, Vec<usize>)> = shelves
        .into_iter()
        .map(|s| (s.name, s.members))
        .collect();
    assert_eq!(
        view,
        vec![
            ("AI".to_string(), vec![2, 4]),
            ("其他".to_string(), vec![1, 5]),
            ("视频".to_string(), vec![0, 3]),
        ]
    );
}

#[test]
fn an_empty_catalog_has_no_shelves() {
    assert!(library_shelves(&[]).is_empty());
}

#[test]
fn a_category_named_other_shares_the_shelf_of_uncategorised_types() {
    let shelves = library_shelves(&cats(&["其他", ""]));
    assert_eq!(shelves.len(), 1);
    assert_eq!(shelves[0].name, "其他");
    assert_eq!(shelves[0].members, vec![0, 1]);
}

#[test]
fn dropping_on_the_canvas_inserts_the_node() {
    let doc = Some(("g1", 3usize));
    assert_eq!(drop_outcome(true, doc, "g1", true, true, true, true), DropOutcome::Insert);
    assert_eq!(drop_outcome(true, doc, "g1", true, true, true, false), DropOutcome::Hover(true));
}

#[test]
fn a_drag_from_another_graph_or_an_unfocused_window_is_cancelled() {
    let doc = Some(("g1", 3usize));
    assert_eq!(drop_outcome(true, doc, "g2", true, true, true, true), DropOutcome::Cancel);
    assert_eq!(drop_outcome(false, doc, "g1", true, true, true, true), DropOutcome::Cancel);
    assert_eq!(drop_outcome(true, None, "g1", true, true, true, true), DropOutcome::Cancel);
}

#[test]
fn dropping_on_a_full_graph_reports_the_limit() {
    let full = Some(("g1", 64usize));
    assert_eq!(drop_outcome(true, full, "g1", true, true, true, true), DropOutcome::Full);
    assert_eq!(drop_outcome(true, full, "g1", true, true, true, false), DropOutcome::Hover(false));
}

#[test]
fn dropping_outside_or_a_stale_type_discards_it() {
    let doc = Some(("g1", 3usize));
    assert_eq!(drop_outcome(true, doc, "g1", true, false, true, true), DropOutcome::Discard);
    assert_eq!(drop_outcome(true, doc, "g1", true, true, false, true), DropOutcome::Discard);
    assert_eq!(drop_outcome(true, doc, "g1", false, true, true, true), DropOutcome::Wait);
}
