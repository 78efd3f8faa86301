//! The node library beside the graph editor: node types shelved by category,
//! and what dropping a dragged node type on the canvas does.
use crate::editor::MAX_NODES;
use crate::text::{
    chars_of, lemma_text_le_antisymmetric, lemma_text_le_reflexive, lemma_text_le_total,
    lemma_text_le_transitive, str_eq, string_of, text_le, text_le_exec,
};
use vstd::prelude::*;

verus! {

/// `"其他"`, the shelf of node types without a category.
pub open spec fn other_shelf() -> Seq<char> {
    seq!['其', '他']
}

/// The shelf a node type of `category` goes on.
pub open spec fn shelf_of(category: Seq<char>) -> Seq<char> {
    if category.len() == 0 {
        other_shelf()
    } else {
        category
    }
}

/// One shelf of the library: its name and the positions, in the catalog's
/// order, of the node types on it.
pub struct Shelf {
    pub name: String,
    pub members: Vec<usize>,
}

/// Shelves in strictly increasing order of their names.
pub open spec fn shelves_sorted(shelves: Seq<Shelf>) -> bool {
    forall|a: int, b: int|
        #![trigger shelves[a], shelves[b]]
        0 <= a < b < shelves.len() ==> text_le(shelves[a].name@, shelves[b].name@)
            && shelves[a].name@ != shelves[b].name@
}

/// Every shelf is non-empty, lists positions below `n` in increasing order,
/// and holds only node types whose category belongs on it.
pub open spec fn shelves_sound(shelves: Seq<Shelf>, categories: Seq<String>, n: int) -> bool {
    &&& forall|g: int| 0 <= g < shelves.len() ==> #[trigger] shelves[g].members@.len() > 0
    &&& forall|g: int, k: int|
        #![trigger shelves[g].members@[k]]
        0 <= g < shelves.len() && 0 <= k < shelves[g].members@.len() ==> {
            let m = shelves[g].members@[k] as int;
            &&& 0 <= m < n
            &&& m < categories.len()
            &&& shelf_of(categories[m]@) == shelves[g].name@
        }
    &&& forall|g: int, k1: int, k2: int|
        #![trigger shelves[g].members@[k1], shelves[g].members@[k2]]
        0 <= g < shelves.len() && 0 <= k1 < k2 < shelves[g].members@.len()
            ==> shelves[g].members@[k1] < shelves[g].members@[k2]
}

/// Position `i` is on some shelf.
pub open spec fn shelved(shelves: Seq<Shelf>, i: int) -> bool {
    exists|g: int, k: int|
        0 <= g < shelves.len() && 0 <= k < shelves[g].members@.len() && #[trigger] shelves[g].members@[k]
            == i
}

/// The name of the shelf for `category`.
fn shelf_name(category: &str) -> (s: String)
    ensures
        s@ == shelf_of(category@),
{
    let chars = chars_of(category);
    if chars.len() == 0 {
        let other = "其他";
        proof {
            reveal_strlit("其他");
        }
        assert(other@ =~= other_shelf());
        string_of(chars_of(other).as_slice())
    } else {
        string_of(chars.as_slice())
    }
}

/// Shelves the node types of the catalog, given by their categories in the
/// catalog's order: one shelf per distinct shelf name, shelves by name, and
/// on each shelf its node types in catalog order.
pub fn library_shelves(categories: &[String]) -> (r: Vec<Shelf>)
    ensures
        shelves_sorted(r@),
        shelves_sound(r@, categories@, categories@.len() as int),
        forall|i: int| 0 <= i < categories@.len() ==> shelved(r@, i),
{
    let mut shelves: Vec<Shelf> = Vec::new();
    let mut i: usize = 0;
    while i < categories.len()
        invariant
            i <= categories@.len(),
            shelves_sorted(shelves@),
            shelves_sound(shelves@, categories@, i as int),
            forall|j: int| 0 <= j < i ==> shelved(shelves@, j),
        decreases categories@.len() - i,
    {
        let name = shelf_name(categories[i].as_str());
        let mut p: usize = 0;
        while p < shelves.len() && !text_le_exec(name.as_str(), shelves[p].name.as_str())
            invariant
                p <= shelves@.len(),
                forall|a: int| 0 <= a < p ==> !text_le(name@, #[trigger] shelves@[a].name@),
            decreases shelves@.len() - p,
        {
            p += 1;
        }
        let ghost before = shelves@;
        if p < shelves.len() && str_eq(shelves[p].name.as_str(), name.as_str()) {
            let mut shelf = shelves.remove(p);
            let ghost old_members = shelf.members@;
            shelf.members.push(i);
            shelves.insert(p, shelf);
            proof {
                assert(shelves@ =~= before.update(p as int, shelves@[p as int]));
                assert(shelves@[p as int].members@ =~= old_members.push(i));
                assert(shelves@[p as int].name@ == before[p as int].name@);
                assert forall|a: int, b: int|
                    #![trigger shelves@[a], shelves@[b]]
                    0 <= a < b < shelves@.len() implies text_le(
                        shelves@[a].name@,
                        shelves@[b].name@,
                    ) && shelves@[a].name@ != shelves@[b].name@ by {
                    assert(before[a].name@ == shelves@[a].name@);
                    assert(before[b].name@ == shelves@[b].name@);
                }
                assert forall|g: int, k: int|
                    #![trigger shelves@[g].members@[k]]
                    0 <= g < shelves@.len() && 0 <= k < shelves@[g].members@.len() implies {
                        let m = shelves@[g].members@[k] as int;
                        &&& 0 <= m < i + 1
                        &&& m < categories@.len()
                        &&& shelf_of(categories@[m]@) == shelves@[g].name@
                    } by {
                    if g != p || k < old_members.len() {
                        assert(shelves@[g].members@[k] == before[g].members@[k]);
                    }
                }
                assert forall|g: int, k1: int, k2: int|
                    #![trigger shelves@[g].members@[k1], shelves@[g].members@[k2]]
                    0 <= g < shelves@.len() && 0 <= k1 < k2 < shelves@[g].members@.len()
                        implies shelves@[g].members@[k1] < shelves@[g].members@[k2] by {
                    if g != p || k2 < old_members.len() {
                        assert(shelves@[g].members@[k1] == before[g].members@[k1]);
                        assert(shelves@[g].members@[k2] == before[g].members@[k2]);
                    } else {
                        assert(shelves@[g].members@[k1] == before[g].members@[k1]);
                        assert(before[g].members@[k1] < i);
                    }
                }
                assert forall|g: int| 0 <= g < shelves@.len() implies #[trigger] shelves@[
                    g
                ].members@.len() > 0 by {
                    assert(before[g].members@.len() > 0);
                }
                assert forall|j: int| 0 <= j < i + 1 implies shelved(shelves@, j) by {
                    if j < i {
                        assert(shelved(before, j));
                        let (g, k) = choose|g: int, k: int|
                            0 <= g < before.len() && 0 <= k < before[g].members@.len()
                                && #[trigger] before[g].members@[k] == j;
                        assert(shelves@[g].members@[k] == j);
                    } else {
                        assert(shelves@[p as int].members@[old_members.len() as int] == j);
                    }
                }
            }
        } else {
            let mut members: Vec<usize> = Vec::new();
            members.push(i);
            let ghost new_name = name@;
            shelves.insert(p, Shelf { name, members });
            proof {
                assert(shelves@ =~= before.insert(p as int, shelves@[p as int]));
                assert(shelves@[p as int].name@ == new_name);
                assert(shelves@[p as int].members@ =~= seq![i]);
                assert forall|a: int| 0 <= a < p implies text_le(
                    #[trigger] before[a].name@,
                    new_name,
                ) && before[a].name@ != new_name by {
                    lemma_text_le_total(new_name, before[a].name@);
                    lemma_text_le_reflexive(new_name);
                }
                assert forall|b: int| p <= b < before.len() implies text_le(
                    new_name,
                    #[trigger] before[b].name@,
                ) && before[b].name@ != new_name by {
                    if b == p {
                    } else {
                        assert(text_le(before[p as int].name@, before[b].name@));
                        lemma_text_le_transitive(new_name, before[p as int].name@, before[b].name@);
                        if before[b].name@ == new_name {
                            lemma_text_le_antisymmetric(new_name, before[p as int].name@);
                        }
                    }
                }
                assert forall|a: int, b: int|
                    #![trigger shelves@[a], shelves@[b]]
                    0 <= a < b < shelves@.len() implies text_le(
                        shelves@[a].name@,
                        shelves@[b].name@,
                    ) && shelves@[a].name@ != shelves@[b].name@ by {
                    if a < p && b < p {
                        assert(shelves@[a] == before[a] && shelves@[b] == before[b]);
                    } else if a < p && b == p {
                        assert(shelves@[a] == before[a]);
                    } else if a < p {
                        assert(shelves@[a] == before[a] && shelves@[b] == before[b - 1]);
                    } else if a == p {
                        assert(shelves@[b] == before[b - 1]);
                    } else {
                        assert(shelves@[a] == before[a - 1] && shelves@[b] == before[b - 1]);
                    }
                }
                assert forall|g: int, k: int|
                    #![trigger shelves@[g].members@[k]]
                    0 <= g < shelves@.len() && 0 <= k < shelves@[g].members@.len() implies {
                        let m = shelves@[g].members@[k] as int;
                        &&& 0 <= m < i + 1
                        &&& m < categories@.len()
                        &&& shelf_of(categories@[m]@) == shelves@[g].name@
                    } by {
                    if g < p {
                        assert(shelves@[g] == before[g]);
                        assert(shelves@[g].members@[k] == before[g].members@[k]);
                    } else if g > p {
                        assert(shelves@[g] == before[g - 1]);
                        assert(shelves@[g].members@[k] == before[g - 1].members@[k]);
                    }
                }
                assert forall|g: int, k1: int, k2: int|
                    #![trigger shelves@[g].members@[k1], shelves@[g].members@[k2]]
                    0 <= g < shelves@.len() && 0 <= k1 < k2 < shelves@[g].members@.len()
                        implies shelves@[g].members@[k1] < shelves@[g].members@[k2] by {
                    if g < p {
                        assert(shelves@[g] == before[g]);
                        assert(shelves@[g].members@[k1] == before[g].members@[k1]);
                        assert(shelves@[g].members@[k2] == before[g].members@[k2]);
                    } else if g > p {
                        assert(shelves@[g] == before[g - 1]);
                        assert(shelves@[g].members@[k1] == before[g - 1].members@[k1]);
                        assert(shelves@[g].members@[k2] == before[g - 1].members@[k2]);
                    }
                }
                assert forall|g: int| 0 <= g < shelves@.len() implies #[trigger] shelves@[
                    g
                ].members@.len() > 0 by {
                    if g < p {
                        assert(shelves@[g] == before[g]);
                    } else if g > p {
                        assert(shelves@[g] == before[g - 1]);
                    }
                }
                assert forall|j: int| 0 <= j < i + 1 implies shelved(shelves@, j) by {
                    if j < i {
                        assert(shelved(before, j));
                        let (g, k) = choose|g: int, k: int|
                            0 <= g < before.len() && 0 <= k < before[g].members@.len()
                                && #[trigger] before[g].members@[k] == j;
                        if g < p {
                            assert(shelves@[g] == before[g]);
                            assert(shelves@[g].members@[k] == j);
                        } else {
                            assert(shelves@[g + 1] == before[g]);
                            assert(shelves@[g + 1].members@[k] == j);
                        }
                    } else {
                        assert(shelves@[p as int].members@[0] == j);
                    }
                }
            }
        }
        i += 1;
    }
    shelves
}

/// Every node type is on exactly one shelf, once.
pub proof fn lemma_shelved_once(
    shelves: Seq<Shelf>,
    categories: Seq<String>,
    g1: int,
    k1: int,
    g2: int,
    k2: int,
)
    requires
        shelves_sorted(shelves),
        shelves_sound(shelves, categories, categories.len() as int),
        0 <= g1 < shelves.len(),
        0 <= k1 < shelves[g1].members@.len(),
        0 <= g2 < shelves.len(),
        0 <= k2 < shelves[g2].members@.len(),
        shelves[g1].members@[k1] == shelves[g2].members@[k2],
    ensures
        g1 == g2,
        k1 == k2,
{
    let m = shelves[g1].members@[k1] as int;
    assert(shelf_of(categories[m]@) == shelves[g1].name@);
    assert(shelf_of(categories[m]@) == shelves[g2].name@);
    if g1 < g2 {
        assert(shelves[g1].name@ != shelves[g2].name@);
    } else if g2 < g1 {
        assert(shelves[g2].name@ != shelves[g1].name@);
    }
    if k1 < k2 {
        assert(shelves[g1].members@[k1] < shelves[g1].members@[k2]);
    } else if k2 < k1 {
        assert(shelves[g1].members@[k2] < shelves[g1].members@[k1]);
    }
}

/// What a node type dragged from the library does this frame.
#[derive(Clone, Copy, Debug, PartialEq, Eq, Structural)]
pub enum DropOutcome {
    /// The drag is abandoned: the window lost focus, or the graph it came
    /// from is no longer the one open.
    Cancel,
    /// There is no pointer position this frame.
    Wait,
    /// Still dragging; whether releasing here would insert the node.
    Hover(bool),
    /// Released over the canvas: the node is inserted.
    Insert,
    /// Released over the canvas of a full graph: the node limit is reported.
    Full,
    /// Released anywhere else, or the node's type version is stale.
    Discard,
}

/// The outcome of a library drag. `doc` is the open graph's id and node
/// count, `drag_graph` the graph the drag started in, `inside` whether the
/// pointer is over the canvas (and no popup is open), `version_matches`
/// whether the catalog still has the dragged type in the dragged version.
pub open spec fn spec_drop_outcome(
    focused: bool,
    doc: Option<(Seq<char>, usize)>,
    drag_graph: Seq<char>,
    pointer: bool,
    inside: bool,
    version_matches: bool,
    released: bool,
) -> DropOutcome {
    match doc {
        None => DropOutcome::Cancel,
        Some((graph, nodes)) => {
            let capacity = nodes < MAX_NODES;
            let valid = inside && capacity && version_matches;
            if !focused || graph != drag_graph {
                DropOutcome::Cancel
            } else if !pointer {
                DropOutcome::Wait
            } else if !released {
                DropOutcome::Hover(valid)
            } else if valid {
                DropOutcome::Insert
            } else if inside && !capacity {
                DropOutcome::Full
            } else {
                DropOutcome::Discard
            }
        },
    }
}

pub fn drop_outcome(
    focused: bool,
    doc: Option<(&str, usize)>,
    drag_graph: &str,
    pointer: bool,
    inside: bool,
    version_matches: bool,
    released: bool,
) -> (r: DropOutcome)
    ensures
        r == spec_drop_outcome(
            focused,
            match doc {
                Some((g, n)) => Some((g@, n)),
                None => None,
            },
            drag_graph@,
            pointer,
            inside,
            version_matches,
            released,
        ),
{
    match doc {
        None => DropOutcome::Cancel,
        Some((graph, nodes)) => {
            let capacity = nodes < MAX_NODES;
            let valid = inside && capacity && version_matches;
            if !focused || !str_eq(graph, drag_graph) {
                DropOutcome::Cancel
            } else if !pointer {
                DropOutcome::Wait
            } else if !released {
                DropOutcome::Hover(valid)
            } else if valid {
                DropOutcome::Insert
            } else if inside && !capacity {
                DropOutcome::Full
            } else {
                DropOutcome::Discard
            }
        },
    }
}

/// A node is only ever inserted into a graph below the node limit.
pub proof fn lemma_drop_respects_limit(
    focused: bool,
    doc: Option<(Seq<char>, usize)>,
    drag_graph: Seq<char>,
    pointer: bool,
    inside: bool,
    version_matches: bool,
    released: bool,
)
    requires
        spec_drop_outcome(focused, doc, drag_graph, pointer, inside, version_matches, released)
            == DropOutcome::Insert,
    ensures
        match doc {
            Some((graph, nodes)) => nodes < MAX_NODES && graph == drag_graph,
            None => false,
        },
        inside && version_matches && released && focused,
{
}

/// A drop inserts the node exactly when the window is focused, the drag
/// belongs to the open graph, the button is released over the canvas, the
/// graph is below the node limit and the dragged type is current; a drag
/// still held is never inserted or refused.
pub proof fn lemma_drop_inserts_iff(
    focused: bool,
    doc: Option<(Seq<char>, usize)>,
    drag_graph: Seq<char>,
    pointer: bool,
    inside: bool,
    version_matches: bool,
    released: bool,
)
    ensures
        spec_drop_outcome(focused, doc, drag_graph, pointer, inside, version_matches, released)
            == DropOutcome::Insert <==> (match doc {
            Some((graph, nodes)) => focused && graph == drag_graph && pointer && released && inside
                && nodes < MAX_NODES && version_matches,
            None => false,
        }),
        !released ==> spec_drop_outcome(
            focused,
            doc,
            drag_graph,
            pointer,
            inside,
            version_matches,
            released,
        ) != DropOutcome::Insert && spec_drop_outcome(
            focused,
            doc,
            drag_graph,
            pointer,
            inside,
            version_matches,
            released,
        ) != DropOutcome::Full,
{
}

} // verus!
