//! The navigation tree of a vault: the vault's folders and notes, kept as
//! an arena of nodes, turned into the nested entries that a page shows.

use vstd::prelude::*;

verus! {

/// One node of a vault's tree: its name, what it is, and the indices of its
/// children in the arena.
pub struct TreeNode<I> {
    pub name: String,
    pub item: I,
    pub children: Vec<usize>,
}

/// One entry of the navigation tree shown on a page, with the vault it
/// belongs to and the note that is open.
pub struct TreeEntry<I> {
    pub name: String,
    pub item: I,
    pub vault_name: String,
    pub open_note_name: String,
    pub children: Vec<TreeEntry<I>>,
}

/// Every path down from node `idx` stays inside the arena and ends within
/// `depth` levels: the tree below `idx` is finite and has no cycle.
pub open spec fn finite_below<I>(nodes: Seq<TreeNode<I>>, idx: int, depth: nat) -> bool
    decreases depth,
{
    &&& depth > 0
    &&& 0 <= idx < nodes.len()
    &&& forall|k: int|
        0 <= k < nodes[idx].children@.len() ==> finite_below(
            nodes,
            #[trigger] nodes[idx].children@[k] as int,
            (depth - 1) as nat,
        )
}

/// The tree below `idx` is finite and has no cycle.
pub open spec fn well_founded_at<I>(nodes: Seq<TreeNode<I>>, idx: int) -> bool {
    exists|depth: nat| finite_below(nodes, idx, depth)
}

/// `e` is the entry for node `idx`: it has the node's name, a clone of its
/// item, the given vault and open note, and, in order, the entries for the
/// node's children.
pub open spec fn entry_of<I: Clone>(
    e: TreeEntry<I>,
    nodes: Seq<TreeNode<I>>,
    idx: int,
    vault: Seq<char>,
    open: Seq<char>,
) -> bool
    decreases e,
{
    proof {
        assert forall|k: int| 0 <= k < e.children@.len() implies decreases_to!(e => e.children@[k]) by {
            assert(decreases_to!(e => e.children));
            assert(decreases_to!(e.children => e.children@));
        }
    }
    &&& 0 <= idx < nodes.len()
    &&& e.name@ == nodes[idx].name@
    &&& cloned(nodes[idx].item, e.item)
    &&& e.vault_name@ == vault
    &&& e.open_note_name@ == open
    &&& e.children@.len() == nodes[idx].children@.len()
    &&& forall|k: int|
        0 <= k < e.children@.len() ==> entry_of(
            #[trigger] e.children@[k],
            nodes,
            nodes[idx].children@[k] as int,
            vault,
            open,
        )
}

fn entry_for<I: Clone>(
    nodes: &Vec<TreeNode<I>>,
    idx: usize,
    vault_name: &String,
    open_note_name: &String,
    Ghost(depth): Ghost<nat>,
) -> (e: TreeEntry<I>)
    requires
        finite_below(nodes@, idx as int, depth),
    ensures
        entry_of(e, nodes@, idx as int, vault_name@, open_note_name@),
    decreases depth,
{
    let node = &nodes[idx];
    let mut children: Vec<TreeEntry<I>> = Vec::new();
    let mut k: usize = 0;
    while k < node.children.len()
        invariant
            k <= node.children.len(),
            node == &nodes@[idx as int],
            finite_below(nodes@, idx as int, depth),
            children@.len() == k,
            forall|p: int|
                0 <= p < k ==> entry_of(
                    #[trigger] children@[p],
                    nodes@,
                    node.children@[p] as int,
                    vault_name@,
                    open_note_name@,
                ),
        decreases node.children.len() - k,
    {
        assert(finite_below(nodes@, node.children@[k as int] as int, (depth - 1) as nat));
        let child = entry_for(
            nodes,
            node.children[k],
            vault_name,
            open_note_name,
            Ghost((depth - 1) as nat),
        );
        children.push(child);
        k = k + 1;
    }
    let e = TreeEntry {
        name: node.name.clone(),
        item: node.item.clone(),
        vault_name: vault_name.clone(),
        open_note_name: open_note_name.clone(),
        children,
    };
    e
}

/// Whether every path down from node `idx` stays inside the arena and ends
/// within `depth` levels (see `finite_below`). A tree of `n` nodes without
/// cycles passes with any `depth` above `n`.
pub fn finite_within<I>(nodes: &Vec<TreeNode<I>>, idx: usize, depth: usize) -> (r: bool)
    ensures
        r == finite_below(nodes@, idx as int, depth as nat),
    decreases depth,
{
    if depth == 0 || idx >= nodes.len() {
        return false;
    }
    let node = &nodes[idx];
    let mut k: usize = 0;
    while k < node.children.len()
        invariant
            k <= node.children.len(),
            0 < depth,
            idx < nodes.len(),
            node == &nodes@[idx as int],
            forall|p: int|
                0 <= p < k ==> finite_below(
                    nodes@,
                    #[trigger] node.children@[p] as int,
                    (depth - 1) as nat,
                ),
        decreases node.children.len() - k,
    {
        if !finite_within(nodes, node.children[k], depth - 1) {
            return false;
        }
        k = k + 1;
    }
    true
}

/// The entry for node `node_index` of the vault's tree, with the entries of
/// everything below it.
pub fn recurse_tree<I: Clone>(
    nodes: &Vec<TreeNode<I>>,
    node_index: usize,
    vault_name: String,
    open_note_name: String,
) -> (e: TreeEntry<I>)
    requires
        well_founded_at(nodes@, node_index as int),
    ensures
        entry_of(e, nodes@, node_index as int, vault_name@, open_note_name@),
        carries_everywhere(e, vault_name@, open_note_name@),
{
    let ghost depth = choose|depth: nat| finite_below(nodes@, node_index as int, depth);
    let e = entry_for(nodes, node_index, &vault_name, &open_note_name, Ghost(depth));
    proof {
        lemma_entry_carries_names(e, nodes@, node_index as int, vault_name@, open_note_name@);
    }
    e
}

/// The navigation tree of a vault, from its root node `0`.
pub fn build_tree<I: Clone>(nodes: &Vec<TreeNode<I>>, vault_name: String, open_note_name: String) -> (e:
    TreeEntry<I>)
    requires
        well_founded_at(nodes@, 0),
    ensures
        entry_of(e, nodes@, 0, vault_name@, open_note_name@),
        carries_everywhere(e, vault_name@, open_note_name@),
{
    recurse_tree(nodes, 0, vault_name, open_note_name)
}

/// Every entry of the tree below `e`, at every depth, carries the vault
/// name `vault` and the open note `open`.
pub open spec fn carries_everywhere<I>(e: TreeEntry<I>, vault: Seq<char>, open: Seq<char>) -> bool
    decreases e,
{
    proof {
        assert forall|k: int| 0 <= k < e.children@.len() implies decreases_to!(e => e.children@[k]) by {
            assert(decreases_to!(e => e.children));
            assert(decreases_to!(e.children => e.children@));
        }
    }
    &&& e.vault_name@ == vault
    &&& e.open_note_name@ == open
    &&& forall|k: int|
        0 <= k < e.children@.len() ==> carries_everywhere(#[trigger] e.children@[k], vault, open)
}

/// The entry built for a node carries the vault name and open note that
/// the tree was built with, at every depth, and has one child entry per
/// child of the node, named as that child.
pub proof fn lemma_entry_carries_names<I: Clone>(
    e: TreeEntry<I>,
    nodes: Seq<TreeNode<I>>,
    idx: int,
    vault: Seq<char>,
    open: Seq<char>,
)
    requires
        entry_of(e, nodes, idx, vault, open),
    ensures
        carries_everywhere(e, vault, open),
        e.name@ == nodes[idx].name@,
        e.children@.len() == nodes[idx].children@.len(),
        forall|k: int|
            0 <= k < e.children@.len() ==> (#[trigger] e.children@[k]).name@
                == nodes[nodes[idx].children@[k] as int].name@,
    decreases e,
{
    assert forall|k: int| 0 <= k < e.children@.len() implies carries_everywhere(
        #[trigger] e.children@[k],
        vault,
        open,
    ) by {
        assert(decreases_to!(e => e.children));
        assert(decreases_to!(e.children => e.children@));
        lemma_entry_carries_names(e.children@[k], nodes, nodes[idx].children@[k] as int, vault, open);
    }
    assert forall|k: int| 0 <= k < e.children@.len() implies (#[trigger] e.children@[k]).name@
        == nodes[nodes[idx].children@[k] as int].name@ by {
        assert(entry_of(e.children@[k], nodes, nodes[idx].children@[k] as int, vault, open));
    }
}

} // verus!
