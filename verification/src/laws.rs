use vstd::prelude::*;
use crate::app::{
    AppView, Key, MouseInput, last_shallower, mouse_outcome, next_outcome, normal_key_outcome,
    position_at_least, prev_outcome, scroll_after, search_hits, search_key_outcome,
};
use crate::picker::{Entry, insert_pos, kept_dirs, kept_files, lex_le, sort_key, sorted_by_name, sorted_prefix};
use crate::json::JsonView;
use crate::text::{lowercase, occurs_at};
use crate::tree::{
    TreeNode, all_collapsed, all_expanded, with_expanded, lemma_same_shape_wf, expanded_to, find_path, nodes_wf, node_matches_spec, path_text,
    NodeKind, json_of, toggled, vis, vis_prefix,
};

verus! {

/// Toggling the same node twice gives back the arena it started from.
pub proof fn law_toggle_twice(nodes: Seq<TreeNode>, idx: int)
    requires
        0 <= idx < nodes.len(),
    ensures
        toggled(toggled(nodes, idx), idx) == nodes,
{
    assert(toggled(toggled(nodes, idx), idx) =~= nodes);
}

/// After closing everything, the first `k` children of the root show one line each.
proof fn lemma_collapsed_children(nodes: Seq<TreeNode>, root: int, k: int)
    requires
        nodes_wf(nodes),
        0 <= root < nodes.len(),
        0 <= k <= nodes[root].children@.len(),
    ensures
        vis_prefix(all_collapsed(nodes, root), root, k) == nodes[root].children@.take(k),
    decreases k,
{
    let c = all_collapsed(nodes, root);
    if k > 0 {
        lemma_collapsed_children(nodes, root, k - 1);
        let ch = nodes[root].children@[k - 1] as int;
        assert(root < ch < nodes.len());
        assert(c[root].children == nodes[root].children);
        assert(!c[ch].expanded);
        assert(vis(c, ch) =~= seq![ch as usize]);
        assert(nodes[root].children@.take(k) =~= nodes[root].children@.take(k - 1).push(
            nodes[root].children@[k - 1],
        ));
    }
}

/// Collapsing everything leaves the root and, when the root can be opened, its direct
/// children on screen, each closed.
pub proof fn law_collapse_all_shows_top_level(nodes: Seq<TreeNode>, root: int)
    requires
        nodes_wf(nodes),
        0 <= root < nodes.len(),
    ensures
        vis(all_collapsed(nodes, root), root) == if nodes[root].expandable() {
            seq![root as usize] + nodes[root].children@
        } else {
            seq![root as usize]
        },
{
    let c = all_collapsed(nodes, root);
    if nodes[root].expandable() {
        lemma_collapsed_children(nodes, root, nodes[root].children@.len() as int);
        assert(nodes[root].children@.take(nodes[root].children@.len() as int) =~= nodes[root].children@);
    } else {
        assert(vis(c, root) =~= seq![root as usize]);
    }
}

/// The open/closed flags a document is read with: only a container at the top level is
/// open.
pub open spec fn opened_as_read(nodes: Seq<TreeNode>) -> bool {
    forall|i: int|
        0 <= i < nodes.len() ==> (#[trigger] nodes[i]).expanded == (nodes[i].depth < 1 && (
        nodes[i].kind is Object || nodes[i].kind is Array))
}

/// `b` is `a` with, at most, other open/closed flags.
pub open spec fn same_but_flags(a: Seq<TreeNode>, b: Seq<TreeNode>) -> bool {
    &&& b.len() == a.len()
    &&& forall|i: int| 0 <= i < a.len() ==> #[trigger] b[i] == with_expanded(a[i], b[i].expanded)
}

/// When no child of node `i` is open, its first `k` children show one line each.
proof fn lemma_closed_children(nodes: Seq<TreeNode>, i: int, k: int)
    requires
        nodes_wf(nodes),
        0 <= i < nodes.len(),
        0 <= k <= nodes[i].children@.len(),
        forall|j: int| 0 <= j < nodes[i].children@.len() ==> !nodes[#[trigger] nodes[i].children@[j] as int].expanded,
    ensures
        vis_prefix(nodes, i, k) == nodes[i].children@.take(k),
    decreases k,
{
    if k > 0 {
        lemma_closed_children(nodes, i, k - 1);
        let ch = nodes[i].children@[k - 1] as int;
        assert(i < ch < nodes.len());
        assert(!nodes[ch].expanded);
        assert(vis(nodes, ch) =~= seq![ch as usize]);
        assert(nodes[i].children@.take(k) =~= nodes[i].children@.take(k - 1).push(
            nodes[i].children@[k - 1],
        ));
    }
}

/// Closing everything gives back the view a document opens with when it is read: however
/// its nodes were opened and closed since, the root and (when it has members) its direct
/// children are on screen, and nothing else.
pub proof fn law_collapse_all_restores_first_view(read: Seq<TreeNode>, now: Seq<TreeNode>, root: int)
    requires
        shape_wf(read),
        opened_as_read(read),
        0 <= root < read.len(),
        read[root].depth == 0,
        same_but_flags(read, now),
    ensures
        vis(all_collapsed(now, root), root) == vis(read, root),
{
    lemma_same_shape_wf(read, now);
    law_collapse_all_shows_top_level(now, root);
    assert(now[root] == with_expanded(read[root], now[root].expanded));
    assert(now[root].expandable() == read[root].expandable());
    assert(now[root].children == read[root].children);
    let m = read[root].children@.len() as int;
    if read[root].expandable() {
        assert(read[root].expanded);
        assert forall|j: int| 0 <= j < m implies !read[#[trigger] read[root].children@[j] as int].expanded by {
            let c = read[root].children@[j] as int;
            assert(root < c < read.len());
            assert(read[c].depth == read[root].depth + 1);
        }
        lemma_closed_children(read, root, m);
        assert(read[root].children@.take(m) =~= read[root].children@);
        assert(vis(read, root) == seq![root as usize] + vis_prefix(read, root, m));
    } else {
        assert(m == 0);
        assert(vis(read, root) =~= seq![root as usize]);
    }
}

/// Children sit one level below their parent, and only non-empty containers have children.
pub open spec fn shape_wf(nodes: Seq<TreeNode>) -> bool {
    &&& nodes_wf(nodes)
    &&& nodes.len() <= usize::MAX
    &&& forall|i: int|
        0 <= i < nodes.len() && !(#[trigger] nodes[i]).expandable() ==> nodes[i].children@.len() == 0
    &&& forall|i: int, j: int|
        0 <= i < nodes.len() && 0 <= j < nodes[i].children@.len() ==> nodes[nodes[i].children@[j] as int].depth
            == nodes[i].depth + 1
}

/// Where the lines of node `i` and everything under it end when all is open: after its
/// last child's, or right after `i` for a node without children.
pub open spec fn subtree_end(nodes: Seq<TreeNode>, i: int) -> int
    decreases nodes.len() - i,
{
    if 0 <= i < nodes.len() && nodes[i].children@.len() > 0 {
        let last = nodes[i].children@.last() as int;
        if i < last < nodes.len() {
            subtree_end(nodes, last)
        } else {
            i + 1
        }
    } else {
        i + 1
    }
}

/// The arena lists a document in reading order from `root` at index 0: each node's first
/// child comes right after it, each further child right after everything under the
/// previous one, and the root's last descendant ends the arena.
pub open spec fn in_reading_order(nodes: Seq<TreeNode>, root: int) -> bool {
    &&& shape_wf(nodes)
    &&& root == 0
    &&& 0 < nodes.len()
    &&& subtree_end(nodes, root) == nodes.len()
    &&& forall|i: int|
        0 <= i < nodes.len() && nodes[i].children@.len() > 0 ==> (#[trigger] nodes[i]).children@[0] == i + 1
    &&& forall|i: int, k: int|
        #![trigger nodes[i].children@[k]]
        0 <= i < nodes.len() && 0 < k < nodes[i].children@.len() ==> nodes[i].children@[k]
            == subtree_end(nodes, nodes[i].children@[k - 1] as int)
}

/// The indices from `a` up to, not including, `b`.
pub open spec fn index_range(a: int, b: int) -> Seq<usize> {
    Seq::new((b - a) as nat, |j: int| (a + j) as usize)
}

proof fn lemma_subtree_end_bounds(nodes: Seq<TreeNode>, i: int)
    requires
        nodes_wf(nodes),
        0 <= i < nodes.len(),
    ensures
        i < subtree_end(nodes, i) <= nodes.len(),
    decreases nodes.len() - i,
{
    if nodes[i].children@.len() > 0 {
        let last = nodes[i].children@.last() as int;
        assert(last == nodes[i].children@[nodes[i].children@.len() - 1]);
        assert(i < last < nodes.len());
        lemma_subtree_end_bounds(nodes, last);
    }
}

/// With everything open, node `i` shows itself and everything under it, in index order.
proof fn lemma_all_open_lines(nodes: Seq<TreeNode>, root: int, i: int)
    requires
        in_reading_order(nodes, root),
        0 <= i < nodes.len(),
    ensures
        vis(all_expanded(nodes), i) == index_range(i, subtree_end(nodes, i)),
    decreases nodes.len() - i, nodes[i].children@.len() + 1,
{
    let e = all_expanded(nodes);
    let m = nodes[i].children@.len() as int;
    assert(e[i].children == nodes[i].children);
    lemma_subtree_end_bounds(nodes, i);
    if m > 0 {
        assert(e[i].expanded);
        lemma_all_open_prefix(nodes, root, i, m);
        let last = nodes[i].children@[m - 1] as int;
        assert(nodes[i].children@.last() == nodes[i].children@[m - 1]);
        assert(i < last < nodes.len());
        assert(subtree_end(nodes, i) == subtree_end(nodes, last));
        assert(vis(e, i) == seq![i as usize] + vis_prefix(e, i, m));
        assert(vis(e, i) =~= index_range(i, subtree_end(nodes, i)));
    } else {
        assert(vis(e, i) =~= seq![i as usize]);
        assert(vis(e, i) =~= index_range(i, subtree_end(nodes, i)));
    }
}

/// With everything open, the first `k` children of node `i` show the nodes from just after
/// `i` to the end of the `k`-th child's lines.
proof fn lemma_all_open_prefix(nodes: Seq<TreeNode>, root: int, i: int, k: int)
    requires
        in_reading_order(nodes, root),
        0 <= i < nodes.len(),
        0 < k <= nodes[i].children@.len(),
    ensures
        vis_prefix(all_expanded(nodes), i, k) == index_range(
            i + 1,
            subtree_end(nodes, nodes[i].children@[k - 1] as int),
        ),
    decreases nodes.len() - i, k,
{
    let e = all_expanded(nodes);
    assert(e[i].children == nodes[i].children);
    let c = nodes[i].children@[k - 1] as int;
    assert(i < c < nodes.len());
    lemma_all_open_lines(nodes, root, c);
    lemma_subtree_end_bounds(nodes, c);
    assert(vis_prefix(e, i, k) == vis_prefix(e, i, k - 1) + vis(e, c));
    if k == 1 {
        assert(nodes[i].children@[0] == i + 1);
        assert(vis_prefix(e, i, 0) =~= Seq::<usize>::empty());
        assert(vis_prefix(e, i, k) =~= index_range(i + 1, subtree_end(nodes, c)));
    } else {
        lemma_all_open_prefix(nodes, root, i, k - 1);
        let p = nodes[i].children@[k - 2] as int;
        assert(c == subtree_end(nodes, p));
        assert(i < p < nodes.len());
        lemma_subtree_end_bounds(nodes, p);
        assert(vis_prefix(e, i, k) =~= index_range(i + 1, subtree_end(nodes, c)));
    }
}

/// "Expand all" puts every node of a document on screen, in reading order, and doing it
/// again changes nothing.
pub proof fn law_expand_all_shows_every_node(nodes: Seq<TreeNode>, root: int)
    requires
        in_reading_order(nodes, root),
    ensures
        vis(all_expanded(nodes), root) == Seq::new(nodes.len(), |j: int| j as usize),
        all_expanded(all_expanded(nodes)) == all_expanded(nodes),
{
    lemma_all_open_lines(nodes, root, root);
    assert(index_range(0, nodes.len() as int) =~= Seq::new(nodes.len(), |j: int| j as usize));
    assert(all_expanded(all_expanded(nodes)) =~= all_expanded(nodes));
}

/// The nodes from index `a` up to, not including, `b` that sit at depth `d` or above, in
/// index order.
pub open spec fn shallow_nodes(nodes: Seq<TreeNode>, a: int, b: int, d: int) -> Seq<usize>
    decreases b - a,
{
    if b <= a {
        Seq::<usize>::empty()
    } else {
        shallow_nodes(nodes, a, b - 1, d) + if nodes[b - 1].depth <= d {
            seq![(b - 1) as usize]
        } else {
            Seq::<usize>::empty()
        }
    }
}

proof fn lemma_shallow_split(nodes: Seq<TreeNode>, a: int, b: int, c: int, d: int)
    requires
        a <= b <= c,
    ensures
        shallow_nodes(nodes, a, c, d) == shallow_nodes(nodes, a, b, d) + shallow_nodes(nodes, b, c, d),
    decreases c - b,
{
    if c > b {
        lemma_shallow_split(nodes, a, b, c - 1, d);
        assert(shallow_nodes(nodes, a, c, d) =~= shallow_nodes(nodes, a, b, d) + shallow_nodes(nodes, b, c, d));
    } else {
        assert(shallow_nodes(nodes, b, c, d) =~= Seq::<usize>::empty());
        assert(shallow_nodes(nodes, a, c, d) =~= shallow_nodes(nodes, a, b, d) + shallow_nodes(nodes, b, c, d));
    }
}

proof fn lemma_shallow_none(nodes: Seq<TreeNode>, a: int, b: int, d: int)
    requires
        forall|x: int| a <= x < b ==> (#[trigger] nodes[x]).depth > d,
    ensures
        shallow_nodes(nodes, a, b, d) == Seq::<usize>::empty(),
    decreases b - a,
{
    if b > a {
        lemma_shallow_none(nodes, a, b - 1, d);
        assert(nodes[b - 1].depth > d);
        assert(shallow_nodes(nodes, a, b, d) =~= Seq::<usize>::empty());
    }
}

/// Everything under node `i` sits deeper than `i`.
proof fn lemma_deeper_under(nodes: Seq<TreeNode>, root: int, i: int)
    requires
        in_reading_order(nodes, root),
        0 <= i < nodes.len(),
    ensures
        forall|x: int| i < x < subtree_end(nodes, i) ==> (#[trigger] nodes[x]).depth > nodes[i].depth,
    decreases nodes.len() - i, nodes[i].children@.len() + 1,
{
    let m = nodes[i].children@.len() as int;
    if m > 0 {
        lemma_deeper_prefix(nodes, root, i, m);
        let last = nodes[i].children@[m - 1] as int;
        assert(nodes[i].children@.last() == nodes[i].children@[m - 1]);
        assert(i < last < nodes.len());
        assert(subtree_end(nodes, i) == subtree_end(nodes, last));
    }
}

/// Everything from just after `i` to the end of its `k`-th child's lines sits deeper than `i`.
proof fn lemma_deeper_prefix(nodes: Seq<TreeNode>, root: int, i: int, k: int)
    requires
        in_reading_order(nodes, root),
        0 <= i < nodes.len(),
        0 < k <= nodes[i].children@.len(),
    ensures
        forall|x: int|
            i < x < subtree_end(nodes, nodes[i].children@[k - 1] as int) ==> (#[trigger] nodes[x]).depth
                > nodes[i].depth,
    decreases nodes.len() - i, k,
{
    let c = nodes[i].children@[k - 1] as int;
    assert(i < c < nodes.len());
    assert(nodes[c].depth == nodes[i].depth + 1);
    lemma_deeper_under(nodes, root, c);
    if k > 1 {
        lemma_deeper_prefix(nodes, root, i, k - 1);
        let p = nodes[i].children@[k - 2] as int;
        assert(c == subtree_end(nodes, p));
    } else {
        assert(c == i + 1);
    }
}

/// Opened to depth `d`, a node at depth `d` or above shows itself and the nodes under it at
/// depth `d` or above, in index order.
proof fn lemma_depth_lines(nodes: Seq<TreeNode>, root: int, d: int, i: int)
    requires
        in_reading_order(nodes, root),
        0 <= i < nodes.len(),
        nodes[i].depth <= d,
    ensures
        vis(expanded_to(nodes, d), i) == shallow_nodes(nodes, i, subtree_end(nodes, i), d),
    decreases nodes.len() - i, nodes[i].children@.len() + 1,
{
    let e = expanded_to(nodes, d);
    let m = nodes[i].children@.len() as int;
    let end = subtree_end(nodes, i);
    assert(e[i].children == nodes[i].children);
    lemma_subtree_end_bounds(nodes, i);
    lemma_shallow_split(nodes, i, i + 1, end, d);
    assert(shallow_nodes(nodes, i, i + 1, d) =~= seq![i as usize]) by {
        assert(shallow_nodes(nodes, i, i, d) =~= Seq::<usize>::empty());
    }
    if m == 0 {
        assert(end == i + 1);
        assert(shallow_nodes(nodes, i + 1, end, d) =~= Seq::<usize>::empty());
        assert(vis(e, i) =~= seq![i as usize]);
    } else if nodes[i].depth < d {
        assert(nodes[i].expandable());
        assert(e[i].expanded);
        lemma_depth_prefix(nodes, root, d, i, m);
        let last = nodes[i].children@[m - 1] as int;
        assert(nodes[i].children@.last() == nodes[i].children@[m - 1]);
        assert(i < last < nodes.len());
        assert(end == subtree_end(nodes, last));
        assert(vis(e, i) == seq![i as usize] + vis_prefix(e, i, m));
    } else {
        assert(nodes[i].expandable());
        assert(!e[i].expanded);
        lemma_deeper_under(nodes, root, i);
        lemma_shallow_none(nodes, i + 1, end, d);
        assert(vis(e, i) =~= seq![i as usize]);
    }
}

/// Opened to depth `d`, the first `k` children of a node above depth `d` show the nodes at
/// depth `d` or above from just after it to the end of the `k`-th child's lines.
proof fn lemma_depth_prefix(nodes: Seq<TreeNode>, root: int, d: int, i: int, k: int)
    requires
        in_reading_order(nodes, root),
        0 <= i < nodes.len(),
        nodes[i].depth < d,
        0 < k <= nodes[i].children@.len(),
    ensures
        vis_prefix(expanded_to(nodes, d), i, k) == shallow_nodes(
            nodes,
            i + 1,
            subtree_end(nodes, nodes[i].children@[k - 1] as int),
            d,
        ),
    decreases nodes.len() - i, k,
{
    let e = expanded_to(nodes, d);
    assert(e[i].children == nodes[i].children);
    let c = nodes[i].children@[k - 1] as int;
    assert(i < c < nodes.len());
    assert(nodes[c].depth == nodes[i].depth + 1);
    lemma_depth_lines(nodes, root, d, c);
    lemma_subtree_end_bounds(nodes, c);
    assert(vis_prefix(e, i, k) == vis_prefix(e, i, k - 1) + vis(e, c));
    if k == 1 {
        assert(c == i + 1);
        assert(vis_prefix(e, i, 0) =~= Seq::<usize>::empty());
        assert(vis_prefix(e, i, k) =~= shallow_nodes(nodes, i + 1, subtree_end(nodes, c), d));
    } else {
        lemma_depth_prefix(nodes, root, d, i, k - 1);
        let p = nodes[i].children@[k - 2] as int;
        assert(c == subtree_end(nodes, p));
        assert(i < p < nodes.len());
        lemma_subtree_end_bounds(nodes, p);
        lemma_shallow_split(nodes, i + 1, c, subtree_end(nodes, c), d);
        assert(vis_prefix(e, i, k) =~= shallow_nodes(nodes, i + 1, subtree_end(nodes, c), d));
    }
}

/// "Expand to depth `d`" shows exactly the nodes at depth `d` or above, in reading order,
/// whatever was open or closed before.
pub proof fn law_expand_to_depth_shows_shallow_nodes(nodes: Seq<TreeNode>, root: int, d: int)
    requires
        in_reading_order(nodes, root),
        nodes[root].depth == 0,
        0 <= d,
    ensures
        vis(expanded_to(nodes, d), root) == shallow_nodes(nodes, 0, nodes.len() as int, d),
{
    lemma_depth_lines(nodes, root, d, root);
}

/// Every line shown for node `i` is a node at `i`'s depth or deeper.
proof fn lemma_vis_depth_floor(nodes: Seq<TreeNode>, i: int)
    requires
        shape_wf(nodes),
        0 <= i < nodes.len(),
    ensures
        forall|m: int| 0 <= m < vis(nodes, i).len() ==> nodes[#[trigger] vis(nodes, i)[m] as int].depth >= nodes[i].depth,
    decreases nodes.len() - i, nodes[i].children@.len() + 1,
{
    let rest = if nodes[i].expanded {
        vis_prefix(nodes, i, nodes[i].children@.len() as int)
    } else {
        Seq::<usize>::empty()
    };
    if nodes[i].expanded {
        lemma_vis_prefix_depth_floor(nodes, i, nodes[i].children@.len() as int);
    }
    assert(vis(nodes, i) == seq![i as usize] + rest);
    assert forall|m: int| 0 <= m < vis(nodes, i).len() implies nodes[#[trigger] vis(nodes, i)[m] as int].depth
        >= nodes[i].depth by {
        if m > 0 {
            assert(vis(nodes, i)[m] == rest[m - 1]);
        } else {
            assert(vis(nodes, i)[0] == i as usize);
        }
    }
}

/// Every line shown for the first `k` children of node `i` sits deeper than `i`.
proof fn lemma_vis_prefix_depth_floor(nodes: Seq<TreeNode>, i: int, k: int)
    requires
        shape_wf(nodes),
        0 <= i < nodes.len(),
        0 <= k <= nodes[i].children@.len(),
    ensures
        forall|m: int|
            0 <= m < vis_prefix(nodes, i, k).len() ==> nodes[#[trigger] vis_prefix(nodes, i, k)[m] as int].depth
                > nodes[i].depth,
    decreases nodes.len() - i, k,
{
    if k > 0 {
        lemma_vis_prefix_depth_floor(nodes, i, k - 1);
        let c = nodes[i].children@[k - 1] as int;
        assert(i < c < nodes.len());
        assert(nodes[c].depth == nodes[i].depth + 1);
        lemma_vis_depth_floor(nodes, c);
        let a = vis_prefix(nodes, i, k - 1);
        let b = vis(nodes, c);
        assert(vis_prefix(nodes, i, k) == a + b);
        assert forall|m: int| 0 <= m < vis_prefix(nodes, i, k).len() implies nodes[#[trigger] vis_prefix(
            nodes,
            i,
            k,
        )[m] as int].depth > nodes[i].depth by {
            if m < a.len() {
                assert(vis_prefix(nodes, i, k)[m] == a[m]);
            } else {
                assert(vis_prefix(nodes, i, k)[m] == b[m - a.len()]);
            }
        }
    }
}

/// The search for a shallower line only reads the lines above where it starts.
proof fn lemma_shallower_in_front(nodes: Seq<TreeNode>, a: Seq<usize>, b: Seq<usize>, d: usize, k: int)
    requires
        0 <= k <= a.len(),
    ensures
        last_shallower(nodes, a + b, d, k) == last_shallower(nodes, a, d, k),
    decreases k,
{
    if k > 0 {
        assert((a + b)[k - 1] == a[k - 1]);
        lemma_shallower_in_front(nodes, a, b, d, k - 1);
    }
}

/// Searching upward from inside the second of two runs of lines looks through that run
/// first, then through the first run.
proof fn lemma_shallower_across(nodes: Seq<TreeNode>, a: Seq<usize>, b: Seq<usize>, d: usize, k: int)
    requires
        0 <= k <= b.len(),
    ensures
        last_shallower(nodes, a + b, d, a.len() + k) == match last_shallower(nodes, b, d, k) {
            Some(j) => Some(a.len() + j),
            None => last_shallower(nodes, a, d, a.len() as int),
        },
    decreases k,
{
    if k > 0 {
        assert((a + b)[a.len() + k - 1] == b[k - 1]);
        lemma_shallower_across(nodes, a, b, d, k - 1);
    } else {
        lemma_shallower_in_front(nodes, a, b, d, a.len() as int);
    }
}

/// Above lines that are all at depth `d` or deeper, no shallower line is found.
proof fn lemma_shallower_none(nodes: Seq<TreeNode>, a: Seq<usize>, d: usize, k: int)
    requires
        0 <= k <= a.len(),
        forall|m: int| 0 <= m < k ==> nodes[#[trigger] a[m] as int].depth >= d,
    ensures
        last_shallower(nodes, a, d, k) is None,
    decreases k,
{
    if k > 0 {
        lemma_shallower_none(nodes, a, d, k - 1);
    }
}

/// Below the first line of node `i`, the nearest shallower line above any line is the line
/// of that line's parent.
proof fn lemma_parent_line(nodes: Seq<TreeNode>, i: int, k: int)
    requires
        shape_wf(nodes),
        0 <= i < nodes.len(),
        0 < k < vis(nodes, i).len(),
    ensures
        ({
            let v = vis(nodes, i);
            last_shallower(nodes, v, nodes[v[k] as int].depth, k) matches Some(j) && 0 <= j < k
                && nodes[v[j] as int].children@.contains(v[k])
        }),
    decreases nodes.len() - i, nodes[i].children@.len() + 1,
{
    let v = vis(nodes, i);
    let m = nodes[i].children@.len() as int;
    if !nodes[i].expanded {
        assert(v =~= seq![i as usize]);
    } else {
        let p = vis_prefix(nodes, i, m);
        assert(v == seq![i as usize] + p);
        let x = v[k];
        assert(x == p[k - 1]);
        let d = nodes[x as int].depth;
        lemma_parent_line_prefix(nodes, i, m, k - 1);
        lemma_shallower_across(nodes, seq![i as usize], p, d, k - 1);
        if last_shallower(nodes, p, d, k - 1) is None {
            assert(nodes[i].children@.contains(x));
            let ci = choose|ci: int| 0 <= ci < nodes[i].children@.len() && nodes[i].children@[ci] == x;
            assert(nodes[nodes[i].children@[ci] as int].depth == nodes[i].depth + 1);
            assert(seq![i as usize][0] == i as usize);
            assert(last_shallower(nodes, seq![i as usize], d, 0) is None);
            assert(v[0] == i as usize);
        }
    }
}

/// Among the lines of the first `k` children of node `i`, the nearest shallower line above
/// line `q` is the line of its parent, or there is none and the line shows a child of `i`.
proof fn lemma_parent_line_prefix(nodes: Seq<TreeNode>, i: int, k: int, q: int)
    requires
        shape_wf(nodes),
        0 <= i < nodes.len(),
        0 <= k <= nodes[i].children@.len(),
        0 <= q < vis_prefix(nodes, i, k).len(),
    ensures
        ({
            let p = vis_prefix(nodes, i, k);
            match last_shallower(nodes, p, nodes[p[q] as int].depth, q) {
                Some(j) => 0 <= j < q && nodes[p[j] as int].children@.contains(p[q]),
                None => nodes[i].children@.contains(p[q]),
            }
        }),
    decreases nodes.len() - i, k,
{
    let p = vis_prefix(nodes, i, k);
    if k == 0 {
        assert(p.len() == 0);
    } else {
        let c = nodes[i].children@[k - 1] as int;
        assert(i < c < nodes.len());
        let a = vis_prefix(nodes, i, k - 1);
        let b = vis(nodes, c);
        assert(p == a + b);
        let x = p[q];
        let d = nodes[x as int].depth;
        if q < a.len() {
            assert(x == a[q]);
            lemma_parent_line_prefix(nodes, i, k - 1, q);
            lemma_shallower_in_front(nodes, a, b, d, q);
            match last_shallower(nodes, a, d, q) {
                Some(j) => {
                    assert(p[j] == a[j]);
                },
                None => {
                    assert(nodes[i].children@.take(k - 1).len() <= nodes[i].children@.len());
                },
            }
        } else {
            let r = q - a.len();
            assert(x == b[r]);
            lemma_shallower_across(nodes, a, b, d, r);
            if r == 0 {
                assert(b[0] == c as usize);
                assert(x == c as usize);
                assert(nodes[c].depth == nodes[i].depth + 1);
                lemma_vis_prefix_depth_floor(nodes, i, k - 1);
                assert(last_shallower(nodes, b, d, 0) is None);
                lemma_shallower_none(nodes, a, d, a.len() as int);
                assert(nodes[i].children@[k - 1] == x);
            } else {
                lemma_parent_line(nodes, c, r);
                let j = last_shallower(nodes, b, d, r)->Some_0;
                assert(p[a.len() + j] == b[j]);
            }
        }
    }
}

/// "Go to parent" finds the parent: on any line below the first, the nearest line above
/// that sits shallower shows the node that the line's node belongs to.
pub proof fn law_nearest_shallower_line_is_parent(nodes: Seq<TreeNode>, root: int, k: int)
    requires
        shape_wf(nodes),
        0 <= root < nodes.len(),
        0 < k < vis(nodes, root).len(),
    ensures
        ({
            let v = vis(nodes, root);
            last_shallower(nodes, v, nodes[v[k] as int].depth, k) matches Some(j) && 0 <= j < k
                && nodes[v[j] as int].children@.contains(v[k])
        }),
{
    lemma_parent_line(nodes, root, k);
}

pub open spec fn max(a: int, b: int) -> int {
    if a >= b {
        a
    } else {
        b
    }
}

proof fn lemma_depth_bound(nodes: Seq<TreeNode>, d: int, i: int)
    requires
        shape_wf(nodes),
        0 <= i < nodes.len(),
    ensures
        forall|x: int|
            0 <= x < vis(expanded_to(nodes, d), i).len() ==> nodes[#[trigger] vis(
                expanded_to(nodes, d),
                i,
            )[x] as int].depth <= max(d, nodes[i].depth as int),
    decreases nodes.len() - i, nodes[i].children@.len() + 1,
{
    let e = expanded_to(nodes, d);
    assert(e[i].children == nodes[i].children);
    if e[i].expanded {
        if nodes[i].expandable() {
            assert(nodes[i].depth < d);
            lemma_depth_bound_prefix(nodes, d, i, nodes[i].children@.len() as int);
        } else {
            assert(nodes[i].children@.len() == 0);
        }
        let rest = vis_prefix(e, i, e[i].children@.len() as int);
        assert(vis(e, i) == seq![i as usize] + rest);
        assert forall|x: int| 0 <= x < vis(e, i).len() implies nodes[#[trigger] vis(e, i)[x] as int].depth
            <= max(d, nodes[i].depth as int) by {
            if x > 0 {
                assert(vis(e, i)[x] == rest[x - 1]);
            } else {
                assert(vis(e, i)[0] == i as usize);
            }
        }
    } else {
        assert(vis(e, i) =~= seq![i as usize]);
        assert forall|x: int| 0 <= x < vis(e, i).len() implies nodes[#[trigger] vis(e, i)[x] as int].depth
            <= max(d, nodes[i].depth as int) by {
            assert(vis(e, i)[0] == i as usize);
        }
    }
}

proof fn lemma_depth_bound_prefix(nodes: Seq<TreeNode>, d: int, i: int, k: int)
    requires
        shape_wf(nodes),
        0 <= i < nodes.len(),
        0 <= k <= nodes[i].children@.len(),
        nodes[i].depth < d,
    ensures
        forall|x: int|
            0 <= x < vis_prefix(expanded_to(nodes, d), i, k).len() ==> nodes[#[trigger] vis_prefix(
                expanded_to(nodes, d),
                i,
                k,
            )[x] as int].depth <= d,
    decreases nodes.len() - i, k,
{
    let e = expanded_to(nodes, d);
    assert(e[i].children == nodes[i].children);
    if k > 0 {
        lemma_depth_bound_prefix(nodes, d, i, k - 1);
        let c = nodes[i].children@[k - 1] as int;
        assert(i < c < nodes.len());
        assert(nodes[c].depth == nodes[i].depth + 1);
        lemma_depth_bound(nodes, d, c);
        let a = vis_prefix(e, i, k - 1);
        let b = vis(e, c);
        assert(vis_prefix(e, i, k) == a + b);
        assert forall|x: int| 0 <= x < vis_prefix(e, i, k).len() implies nodes[#[trigger] vis_prefix(
            e,
            i,
            k,
        )[x] as int].depth <= d by {
            if x < a.len() {
                assert(vis_prefix(e, i, k)[x] == a[x]);
            } else {
                assert(vis_prefix(e, i, k)[x] == b[x - a.len()]);
            }
        }
    }
}

/// After "expand to depth `d`", no line shows a node deeper than `d` (or than the root, when
/// the root sits deeper).
pub proof fn law_expand_to_depth_bounds_lines(nodes: Seq<TreeNode>, root: int, d: int)
    requires
        shape_wf(nodes),
        0 <= root < nodes.len(),
    ensures
        forall|x: int|
            0 <= x < vis(expanded_to(nodes, d), root).len() ==> nodes[#[trigger] vis(
                expanded_to(nodes, d),
                root,
            )[x] as int].depth <= max(d, nodes[root].depth as int),
{
    lemma_depth_bound(nodes, d, root);
}

/// Search keeps exactly the lines whose node matches the query, in screen order.
pub proof fn law_search_hits_are_the_matching_lines(
    nodes: Seq<TreeNode>,
    visible: Seq<usize>,
    query: Seq<char>,
    k: int,
)
    requires
        0 <= k <= visible.len(),
        visible.len() <= usize::MAX,
    ensures
        forall|line: int|
            0 <= line < k ==> (search_hits(nodes, visible, query, k).contains(line as usize)
                <==> node_matches_spec(nodes[visible[line] as int], query)),
        forall|a: int, b: int|
            0 <= a < b < search_hits(nodes, visible, query, k).len() ==> search_hits(
                nodes,
                visible,
                query,
                k,
            )[a] < search_hits(nodes, visible, query, k)[b],
        forall|a: int|
            0 <= a < search_hits(nodes, visible, query, k).len() ==> search_hits(
                nodes,
                visible,
                query,
                k,
            )[a] < k,
    decreases k,
{
    if k > 0 {
        law_search_hits_are_the_matching_lines(nodes, visible, query, k - 1);
        let prev = search_hits(nodes, visible, query, k - 1);
        let cur = search_hits(nodes, visible, query, k);
        assert forall|line: int| 0 <= line < k implies (cur.contains(line as usize)
            <==> node_matches_spec(nodes[visible[line] as int], query)) by {
            if node_matches_spec(nodes[visible[k - 1] as int], query) {
                assert(cur == prev.push((k - 1) as usize));
                if line == k - 1 {
                    assert(cur[prev.len() as int] == (k - 1) as usize);
                } else {
                    if cur.contains(line as usize) {
                        let j = choose|j: int| 0 <= j < cur.len() && cur[j] == line as usize;
                        if j < prev.len() {
                            assert(prev[j] == line as usize);
                        }
                    }
                    if prev.contains(line as usize) {
                        let j = choose|j: int| 0 <= j < prev.len() && prev[j] == line as usize;
                        assert(cur[j] == line as usize);
                    }
                }
            } else {
                assert(cur =~= prev);
                if line == k - 1 && cur.contains(line as usize) {
                    let j = choose|j: int| 0 <= j < cur.len() && cur[j] == line as usize;
                    assert(prev[j] < k - 1);
                }
            }
        }
        if node_matches_spec(nodes[visible[k - 1] as int], query) {
            assert(cur == prev.push((k - 1) as usize));
        } else {
            assert(cur =~= prev);
        }
    }
}

/// `n` followed by `N` comes back to the hit it started from.
pub proof fn law_next_then_prev(s: AppView)
    requires
        0 < s.results.len() <= usize::MAX,
        s.search_index < s.results.len(),
    ensures
        prev_outcome(next_outcome(s)).search_index == s.search_index,
        prev_outcome(next_outcome(s)).cursor == s.results[s.search_index as int],
{
    let len = s.results.len();
    if s.search_index + 1 < len {
        vstd::arithmetic::div_mod::lemma_small_mod((s.search_index + 1) as nat, len);
        assert(next_outcome(s).search_index == s.search_index + 1);
    } else {
        vstd::arithmetic::div_mod::lemma_mod_self_0(len as int);
        assert(next_outcome(s).search_index == 0);
    }
}

/// `N` followed by `n` comes back to the hit it started from.
pub proof fn law_prev_then_next(s: AppView)
    requires
        0 < s.results.len() <= usize::MAX,
        s.search_index < s.results.len(),
    ensures
        next_outcome(prev_outcome(s)).search_index == s.search_index,
        next_outcome(prev_outcome(s)).cursor == s.results[s.search_index as int],
{
    let len = s.results.len();
    if s.search_index == 0 {
        vstd::arithmetic::div_mod::lemma_mod_self_0(len as int);
        assert(prev_outcome(s).search_index == len - 1);
    } else {
        vstd::arithmetic::div_mod::lemma_small_mod(s.search_index as nat, len);
        assert(prev_outcome(s).search_index == s.search_index - 1);
    }
}

/// After scrolling for a window of `h > 0` lines, the cursor's line is inside the window.
pub proof fn law_scroll_keeps_cursor_in_view(c: int, off: int, h: int)
    requires
        0 <= c,
        0 <= off,
        0 < h,
    ensures
        scroll_after(c, off, h) <= c < scroll_after(c, off, h) + h,
        0 <= scroll_after(c, off, h),
{
}

/// The root's path is `$`, and so is the path of a node that is not in the tree.
pub proof fn law_root_path(nodes: Seq<TreeNode>, root: int, outside: int)
    requires
        0 <= root < nodes.len(),
        nodes_wf(nodes),
        !(0 <= outside < nodes.len()),
    ensures
        path_text(nodes, root, root) == seq!['$'],
        path_text(nodes, root, outside) == seq!['$'],
{
    assert(seq!['$'] + Seq::<Seq<char>>::empty().flatten() =~= seq!['$']);
    lemma_not_found(nodes, root, outside);
}

proof fn lemma_not_found(nodes: Seq<TreeNode>, cur: int, target: int)
    requires
        0 <= cur < nodes.len(),
        nodes_wf(nodes),
        !(0 <= target < nodes.len()),
    ensures
        find_path(nodes, cur, target) is None,
    decreases nodes.len() - cur, nodes[cur].children@.len() + 1,
{
    lemma_not_found_prefix(nodes, cur, target, nodes[cur].children@.len() as int);
}

proof fn lemma_not_found_prefix(nodes: Seq<TreeNode>, cur: int, target: int, k: int)
    requires
        0 <= cur < nodes.len(),
        nodes_wf(nodes),
        !(0 <= target < nodes.len()),
        0 <= k <= nodes[cur].children@.len(),
    ensures
        crate::tree::find_path_prefix(nodes, cur, target, k) is None,
    decreases nodes.len() - cur, k,
{
    if k > 0 {
        lemma_not_found_prefix(nodes, cur, target, k - 1);
        let c = nodes[cur].children@[k - 1] as int;
        assert(cur < c < nodes.len());
        lemma_not_found(nodes, c, target);
    }
}


/// The state is one the viewer can be in: the lines are those of a well-formed tree, the
/// cursor is on a line, and every search hit is a line.
pub open spec fn settled(s: AppView) -> bool {
    &&& nodes_wf(s.nodes)
    &&& s.nodes.len() <= usize::MAX
    &&& s.root < s.nodes.len()
    &&& s.visible == vis(s.nodes, s.root as int)
    &&& s.visible.len() <= usize::MAX
    &&& s.cursor < s.visible.len()
    &&& forall|i: int| 0 <= i < s.results.len() ==> #[trigger] s.results[i] < s.visible.len()
    &&& s.results.len() <= usize::MAX
    &&& s.results.len() > 0 ==> s.search_index < s.results.len()
}

proof fn lemma_last_shallower_range(nodes: Seq<TreeNode>, visible: Seq<usize>, d: usize, k: int)
    ensures
        last_shallower(nodes, visible, d, k) matches Some(i) ==> 0 <= i < k,
    decreases k,
{
    if k > 0 {
        lemma_last_shallower_range(nodes, visible, d, k - 1);
    }
}

proof fn lemma_position_range(s: Seq<usize>, c: usize, i: int)
    requires
        0 <= i <= s.len(),
    ensures
        i <= position_at_least(s, c, i) <= s.len(),
    decreases s.len() - i,
{
    if i < s.len() {
        lemma_position_range(s, c, i + 1);
    }
}

/// Every key of normal mode leaves the cursor on a line. (With stale search hits, left by
/// a search before the tree was folded, `n` and `N` can move it past the last line.)
pub proof fn law_normal_keys_keep_cursor_on_a_line(s: AppView, key: Key, ctrl: bool)
    requires
        settled(s),
    ensures
        normal_key_outcome(s, key, ctrl).cursor < normal_key_outcome(s, key, ctrl).visible.len(),
{
    crate::tree::lemma_vis_bounds(s.nodes, s.root as int);
    assert(s.visible[s.cursor as int] < s.nodes.len());
    assert(vis(s.nodes, s.root as int).len() > 0);
    lemma_last_shallower_range(s.nodes, s.visible, s.nodes[s.visible[s.cursor as int] as int].depth, s.cursor as int);
    let len = s.results.len();
    if len > 0 {
        vstd::arithmetic::div_mod::lemma_mod_bound((s.search_index + 1) as int, len as int);
        assert(0 <= (s.search_index + 1) % (len as int) < len);
    }
    lemma_vis_nonempty(s.nodes, s.root as int);
}

proof fn lemma_vis_nonempty(nodes: Seq<TreeNode>, root: int)
    requires
        0 <= root < nodes.len(),
    ensures
        vis(nodes, root).len() > 0,
        vis(all_expanded(nodes), root).len() > 0,
        vis(all_collapsed(nodes, root), root).len() > 0,
        forall|d: int| #[trigger] vis(expanded_to(nodes, d), root).len() > 0,
        forall|i: int| 0 <= i < nodes.len() ==> #[trigger] vis(toggled(nodes, i), root).len() > 0,
{
    assert forall|d: int| #[trigger] vis(expanded_to(nodes, d), root).len() > 0 by {
        assert(expanded_to(nodes, d).len() == nodes.len());
    }
    assert forall|i: int| 0 <= i < nodes.len() implies #[trigger] vis(toggled(nodes, i), root).len() > 0 by {
        assert(toggled(nodes, i).len() == nodes.len());
    }
    assert(all_expanded(nodes).len() == nodes.len());
    assert(all_collapsed(nodes, root).len() == nodes.len());
}

/// Every key of search mode leaves the cursor on a line.
pub proof fn law_search_keys_keep_cursor_on_a_line(s: AppView, key: Key)
    requires
        settled(s),
    ensures
        search_key_outcome(s, key).cursor < search_key_outcome(s, key).visible.len(),
{
    let hits = search_hits(s.nodes, s.visible, s.query, s.visible.len() as int);
    law_search_hits_are_the_matching_lines(s.nodes, s.visible, s.query, s.visible.len() as int);
    lemma_position_range(hits, s.cursor, 0);
}

/// Every mouse event leaves the cursor on a line.
pub proof fn law_mouse_keeps_cursor_on_a_line(s: AppView, m: MouseInput)
    requires
        settled(s),
    ensures
        mouse_outcome(s, m).cursor < mouse_outcome(s, m).visible.len(),
{
    crate::tree::lemma_vis_bounds(s.nodes, s.root as int);
    assert(s.visible[s.cursor as int] < s.nodes.len());
    lemma_vis_nonempty(s.nodes, s.root as int);
}


/// String order is total: of two strings, one sorts with or before the other.
pub proof fn lemma_lex_total(a: Seq<char>, b: Seq<char>)
    ensures
        lex_le(a, b) || lex_le(b, a),
    decreases a.len(),
{
    if a.len() > 0 && b.len() > 0 {
        if a[0] == b[0] {
            lemma_lex_total(a.drop_first(), b.drop_first());
        } else {
            vstd::utf8::char_u32_cast(a[0], a[0] as u32);
            vstd::utf8::char_u32_cast(b[0], b[0] as u32);
            assert((a[0] as u32) != (b[0] as u32));
        }
    }
}

/// String order is transitive.
pub proof fn lemma_lex_trans(a: Seq<char>, b: Seq<char>, c: Seq<char>)
    requires
        lex_le(a, b),
        lex_le(b, c),
    ensures
        lex_le(a, c),
    decreases a.len(),
{
    if a.len() > 0 && b.len() > 0 && c.len() > 0 && a[0] == b[0] && b[0] == c[0] {
        lemma_lex_trans(a.drop_first(), b.drop_first(), c.drop_first());
    }
}

/// Sorted by lowercase name, each entry with or before every later one.
pub open spec fn sorted_by_key(s: Seq<Entry>) -> bool {
    forall|i: int, j: int| 0 <= i < j < s.len() ==> lex_le(sort_key(s[i]), sort_key(s[j]))
}

proof fn lemma_insert_pos(s: Seq<Entry>, k: Seq<char>, j: int)
    requires
        0 <= j <= s.len(),
    ensures
        j <= insert_pos(s, k, j) <= s.len(),
        forall|m: int| j <= m < insert_pos(s, k, j) ==> lex_le(sort_key(#[trigger] s[m]), k),
        insert_pos(s, k, j) < s.len() ==> !lex_le(sort_key(s[insert_pos(s, k, j)]), k),
    decreases s.len() - j,
{
    if j < s.len() && lex_le(sort_key(s[j]), k) {
        lemma_insert_pos(s, k, j + 1);
    }
}

proof fn lemma_insert_keeps_sorted(s: Seq<Entry>, x: Entry)
    requires
        sorted_by_key(s),
    ensures
        sorted_by_key(s.insert(insert_pos(s, sort_key(x), 0), x)),
{
    let k = sort_key(x);
    let p = insert_pos(s, k, 0);
    lemma_insert_pos(s, k, 0);
    let r = s.insert(p, x);
    if p < s.len() {
        lemma_lex_total(sort_key(s[p]), k);
    }
    assert forall|i: int, j: int| 0 <= i < j < r.len() implies lex_le(sort_key(r[i]), sort_key(r[j])) by {
        if j < p {
            assert(r[i] == s[i] && r[j] == s[j]);
        } else if j == p {
            assert(r[j] == x && r[i] == s[i]);
        } else if i == p {
            assert(r[i] == x && r[j] == s[j - 1]);
            if j - 1 > p {
                lemma_lex_trans(k, sort_key(s[p]), sort_key(s[j - 1]));
            }
        } else if i < p {
            assert(r[i] == s[i] && r[j] == s[j - 1]);
        } else {
            assert(r[i] == s[i - 1] && r[j] == s[j - 1]);
        }
    }
}

proof fn lemma_sorted_prefix(list: Seq<Entry>, k: int)
    requires
        0 <= k <= list.len(),
    ensures
        sorted_by_key(sorted_prefix(list, k)),
        sorted_prefix(list, k).to_multiset() == list.take(k).to_multiset(),
    decreases k,
{
    broadcast use vstd::seq_lib::to_multiset_build, vstd::seq_lib::to_multiset_insert;

    if k == 0 {
        assert(list.take(0) =~= Seq::<Entry>::empty());
        assert(sorted_prefix(list, 0) =~= Seq::<Entry>::empty());
    } else {
        lemma_sorted_prefix(list, k - 1);
        let prev = sorted_prefix(list, k - 1);
        lemma_insert_keeps_sorted(prev, list[k - 1]);
        lemma_insert_pos(prev, sort_key(list[k - 1]), 0);
        assert(list.take(k) =~= list.take(k - 1).push(list[k - 1]));
    }
}

/// The picker's sort puts entries in order of their lowercase names and neither loses nor
/// adds an entry.
pub proof fn law_listing_sort_orders_by_name(list: Seq<Entry>)
    ensures
        sorted_by_key(sorted_by_name(list)),
        sorted_by_name(list).to_multiset() == list.to_multiset(),
{
    lemma_sorted_prefix(list, list.len() as int);
    assert(list.take(list.len() as int) =~= list);
}


/// In reading order, the `k`-th child of node `i` and everything under it lie inside the
/// lines of `i`, after `i`.
proof fn lemma_child_span(nodes: Seq<TreeNode>, root: int, i: int, k: int)
    requires
        in_reading_order(nodes, root),
        0 <= i < nodes.len(),
        0 <= k < nodes[i].children@.len(),
    ensures
        i < nodes[i].children@[k] < subtree_end(nodes, nodes[i].children@[k] as int) <= subtree_end(
            nodes,
            i,
        ),
    decreases nodes[i].children@.len() - k,
{
    let m = nodes[i].children@.len() as int;
    let c = nodes[i].children@[k] as int;
    assert(i < c < nodes.len());
    lemma_subtree_end_bounds(nodes, c);
    if k == m - 1 {
        assert(nodes[i].children@.last() == nodes[i].children@[m - 1]);
    } else {
        lemma_child_span(nodes, root, i, k + 1);
        assert(nodes[i].children@[k + 1] == subtree_end(nodes, c));
    }
}

/// In reading order, a later child of node `i` starts after everything under an earlier one.
proof fn lemma_children_in_order(nodes: Seq<TreeNode>, root: int, i: int, k: int, j: int)
    requires
        in_reading_order(nodes, root),
        0 <= i < nodes.len(),
        0 <= k < j < nodes[i].children@.len(),
    ensures
        subtree_end(nodes, nodes[i].children@[k] as int) <= nodes[i].children@[j],
    decreases j - k,
{
    if j > k + 1 {
        lemma_children_in_order(nodes, root, i, k, j - 1);
        lemma_child_span(nodes, root, i, j - 1);
    }
}

/// A node strictly inside the lines of node `i` lies inside the lines of one of its children.
proof fn lemma_locate_child(nodes: Seq<TreeNode>, root: int, i: int, t: int) -> (k: int)
    requires
        in_reading_order(nodes, root),
        0 <= i < nodes.len(),
        i < t < subtree_end(nodes, i),
    ensures
        0 <= k < nodes[i].children@.len(),
        nodes[i].children@[k] <= t < subtree_end(nodes, nodes[i].children@[k] as int),
{
    let m = nodes[i].children@.len() as int;
    if m == 0 {
        assert(subtree_end(nodes, i) == i + 1);
        assert(false);
    }
    lemma_locate_in_prefix(nodes, root, i, t, m)
}

proof fn lemma_locate_in_prefix(nodes: Seq<TreeNode>, root: int, i: int, t: int, k: int) -> (r: int)
    requires
        in_reading_order(nodes, root),
        0 <= i < nodes.len(),
        0 < k <= nodes[i].children@.len(),
        i < t < subtree_end(nodes, nodes[i].children@[k - 1] as int),
    ensures
        0 <= r < k,
        nodes[i].children@[r] <= t < subtree_end(nodes, nodes[i].children@[r] as int),
    decreases k,
{
    let c = nodes[i].children@[k - 1] as int;
    if t >= c {
        k - 1
    } else {
        if k == 1 {
            assert(c == i + 1);
            assert(false);
        }
        assert(c == subtree_end(nodes, nodes[i].children@[k - 2] as int));
        lemma_locate_in_prefix(nodes, root, i, t, k - 1)
    }
}

/// In reading order, a node whose lines hold `t` holds the lines of `t` too.
proof fn lemma_nested_end(nodes: Seq<TreeNode>, root: int, c: int, t: int)
    requires
        in_reading_order(nodes, root),
        0 <= c <= t < subtree_end(nodes, c),
        c < nodes.len(),
    ensures
        subtree_end(nodes, t) <= subtree_end(nodes, c),
    decreases nodes.len() - c,
{
    if t > c {
        let k = lemma_locate_child(nodes, root, c, t);
        let ck = nodes[c].children@[k] as int;
        lemma_child_span(nodes, root, c, k);
        lemma_nested_end(nodes, root, ck, t);
    }
}

/// The search from node `i` finds nothing outside the lines of `i`.
proof fn lemma_path_miss(nodes: Seq<TreeNode>, root: int, i: int, t: int)
    requires
        in_reading_order(nodes, root),
        0 <= i < nodes.len(),
        !(i <= t < subtree_end(nodes, i)),
    ensures
        find_path(nodes, i, t) is None,
    decreases nodes.len() - i, nodes[i].children@.len() + 1,
{
    let m = nodes[i].children@.len() as int;
    lemma_subtree_end_bounds(nodes, i);
    if m > 0 {
        assert(nodes[i].children@.last() == nodes[i].children@[m - 1]);
        let last = nodes[i].children@[m - 1] as int;
        assert(i < last < nodes.len());
        assert(subtree_end(nodes, i) == subtree_end(nodes, last));
        lemma_path_miss_prefix(nodes, root, i, t, m);
    }
}

proof fn lemma_path_miss_prefix(nodes: Seq<TreeNode>, root: int, i: int, t: int, k: int)
    requires
        in_reading_order(nodes, root),
        0 <= i < nodes.len(),
        0 < k <= nodes[i].children@.len(),
        !(i < t < subtree_end(nodes, nodes[i].children@[k - 1] as int)),
    ensures
        crate::tree::find_path_prefix(nodes, i, t, k) is None,
    decreases nodes.len() - i, k,
{
    let c = nodes[i].children@[k - 1] as int;
    lemma_child_span(nodes, root, i, k - 1);
    lemma_path_miss(nodes, root, c, t);
    if k > 1 {
        let p = nodes[i].children@[k - 2] as int;
        assert(c == subtree_end(nodes, p));
        lemma_child_span(nodes, root, i, k - 2);
        lemma_path_miss_prefix(nodes, root, i, t, k - 1);
    } else {
        assert(c == i + 1);
        assert(crate::tree::find_path_prefix(nodes, i, t, 0) is None);
    }
}

/// The search from node `i` for a node under its `k`-th child goes through that child.
proof fn lemma_path_descend(nodes: Seq<TreeNode>, root: int, i: int, t: int, k: int)
    requires
        in_reading_order(nodes, root),
        0 <= i < nodes.len(),
        0 <= k < nodes[i].children@.len(),
        nodes[i].children@[k] <= t < subtree_end(nodes, nodes[i].children@[k] as int),
    ensures
        find_path(nodes, i, t) == match find_path(nodes, nodes[i].children@[k] as int, t) {
            Some(p) => Some(seq![crate::tree::path_part(nodes[nodes[i].children@[k] as int])] + p),
            None => None::<Seq<Seq<char>>>,
        },
{
    let m = nodes[i].children@.len() as int;
    let c = nodes[i].children@[k] as int;
    lemma_child_span(nodes, root, i, k);
    if k > 0 {
        assert(c == subtree_end(nodes, nodes[i].children@[k - 1] as int));
        lemma_path_miss_prefix(nodes, root, i, t, k);
    } else {
        assert(crate::tree::find_path_prefix(nodes, i, t, 0) is None);
    }
    let r = crate::tree::find_path_prefix(nodes, i, t, k + 1);
    if r is Some {
        crate::tree::lemma_find_prefix_stable(nodes, i, t, k + 1, m);
    } else {
        lemma_path_none_after(nodes, root, i, t, k + 1, m);
    }
}

/// Past the child whose lines hold `t`, no later child finds it either.
proof fn lemma_path_none_after(nodes: Seq<TreeNode>, root: int, i: int, t: int, k: int, m: int)
    requires
        in_reading_order(nodes, root),
        0 <= i < nodes.len(),
        0 < k <= m <= nodes[i].children@.len(),
        t < subtree_end(nodes, nodes[i].children@[k - 1] as int),
        crate::tree::find_path_prefix(nodes, i, t, k) is None,
    ensures
        crate::tree::find_path_prefix(nodes, i, t, m) is None,
    decreases m - k,
{
    if m > k {
        lemma_path_none_after(nodes, root, i, t, k, m - 1);
        let c = nodes[i].children@[m - 1] as int;
        lemma_children_in_order(nodes, root, i, k - 1, m - 1);
        lemma_child_span(nodes, root, i, m - 1);
        lemma_path_miss(nodes, root, c, t);
    }
}

/// The search from node `i` for a node `t` with parent `p`, both inside the lines of `i`,
/// finds the path to `p` and then `t`'s piece.
proof fn lemma_path_through_parent(nodes: Seq<TreeNode>, root: int, i: int, p: int, j: int)
    requires
        in_reading_order(nodes, root),
        0 <= i < nodes.len(),
        i <= p < subtree_end(nodes, i),
        0 <= j < nodes[p].children@.len(),
    ensures
        find_path(nodes, i, p) matches Some(pp) && find_path(nodes, i, nodes[p].children@[j] as int)
            == Some(pp.push(crate::tree::path_part(nodes[nodes[p].children@[j] as int]))),
    decreases nodes.len() - i,
{
    let t = nodes[p].children@[j] as int;
    lemma_subtree_end_bounds(nodes, i);
    if p == i {
        lemma_child_span(nodes, root, i, j);
        lemma_subtree_end_bounds(nodes, t);
        lemma_path_descend(nodes, root, i, t, j);
        assert(find_path(nodes, t, t) == Some(Seq::<Seq<char>>::empty()));
        assert(seq![crate::tree::path_part(nodes[t])] + Seq::<Seq<char>>::empty() =~= Seq::<Seq<char>>::empty().push(
            crate::tree::path_part(nodes[t]),
        ));
    } else {
        let k = lemma_locate_child(nodes, root, i, p);
        let c = nodes[i].children@[k] as int;
        lemma_child_span(nodes, root, i, k);
        lemma_nested_end(nodes, root, c, p);
        lemma_child_span(nodes, root, p, j);
        lemma_path_through_parent(nodes, root, c, p, j);
        lemma_path_descend(nodes, root, i, p, k);
        lemma_path_descend(nodes, root, i, t, k);
        let pp = find_path(nodes, c, p)->Some_0;
        let part_c = crate::tree::path_part(nodes[c]);
        let part_t = crate::tree::path_part(nodes[t]);
        assert(seq![part_c] + pp.push(part_t) =~= (seq![part_c] + pp).push(part_t));
    }
}

/// The path of a child is its parent's path followed by the child's piece: `[i]` for an
/// array element, `.key` for a member.
pub proof fn law_child_path_extends_parent_path(nodes: Seq<TreeNode>, root: int, p: int, j: int)
    requires
        in_reading_order(nodes, root),
        0 <= p < nodes.len(),
        0 <= j < nodes[p].children@.len(),
    ensures
        path_text(nodes, root, nodes[p].children@[j] as int) == path_text(nodes, root, p)
            + crate::tree::path_part(nodes[nodes[p].children@[j] as int]),
{
    lemma_path_through_parent(nodes, root, root, p, j);
    let pp = find_path(nodes, root, p)->Some_0;
    let part = crate::tree::path_part(nodes[nodes[p].children@[j] as int]);
    pp.lemma_flatten_push(part);
    assert(seq!['$'] + pp.push(part).flatten() =~= seq!['$'] + pp.flatten() + part);
}


/// A search finds a string line when the query, ignoring case, occurs anywhere in its key or
/// anywhere in its value: at the start, in the middle or at the end.
pub proof fn law_string_lines_match_anywhere(node: TreeNode, query: Seq<char>)
    requires
        node.kind is String,
    ensures
        node_matches_spec(node, query) <==> ((node.key matches Some(k) && exists|i: int|
            occurs_at(lowercase(k@), lowercase(query), i)) || exists|i: int|
            occurs_at(lowercase(node.kind->String_0@), lowercase(query), i)),
{
}

/// A number line is searched as written, case and all; `true`, `false` and `null` are
/// searched ignoring case; an object or array line is found by its key alone.
pub proof fn law_other_lines_match_by_kind(node: TreeNode, query: Seq<char>)
    ensures
        node.kind is Number ==> (node_matches_spec(node, query) <==> ((node.key matches Some(k)
            && exists|i: int| occurs_at(lowercase(k@), lowercase(query), i)) || exists|i: int|
            occurs_at(node.kind->Number_0@, query, i))),
        node.kind is Null ==> (node_matches_spec(node, query) <==> ((node.key matches Some(k)
            && exists|i: int| occurs_at(lowercase(k@), lowercase(query), i)) || exists|i: int|
            occurs_at("null"@, lowercase(query), i))),
        node.kind == NodeKind::Bool(true) ==> (node_matches_spec(node, query) <==> ((node.key matches Some(k)
            && exists|i: int| occurs_at(lowercase(k@), lowercase(query), i)) || exists|i: int|
            occurs_at("true"@, lowercase(query), i))),
        node.kind == NodeKind::Bool(false) ==> (node_matches_spec(node, query) <==> ((node.key matches Some(k)
            && exists|i: int| occurs_at(lowercase(k@), lowercase(query), i)) || exists|i: int|
            occurs_at("false"@, lowercase(query), i))),
        (node.kind is Object || node.kind is Array) ==> (node_matches_spec(node, query) <==> (
        node.key matches Some(k) && exists|i: int| occurs_at(lowercase(k@), lowercase(query), i))),
{
    reveal_strlit("null");
    reveal_strlit("true");
    reveal_strlit("false");
    assert("null"@ =~= seq!['n', 'u', 'l', 'l']);
    assert("true"@ =~= seq!['t', 'r', 'u', 'e']);
    assert("false"@ =~= seq!['f', 'a', 'l', 's', 'e']);
}

/// Toggling node `idx` flips its open flag when it can be opened and changes nothing else:
/// every other node, and every other field of `idx`, stays as it was.
pub proof fn law_toggle_changes_only_that_node(nodes: Seq<TreeNode>, idx: int)
    requires
        0 <= idx < nodes.len(),
    ensures
        toggled(nodes, idx).len() == nodes.len(),
        forall|j: int| 0 <= j < nodes.len() && j != idx ==> #[trigger] toggled(nodes, idx)[j] == nodes[j],
        toggled(nodes, idx)[idx].expanded == (nodes[idx].expanded != nodes[idx].expandable()),
        toggled(nodes, idx)[idx].key == nodes[idx].key,
        toggled(nodes, idx)[idx].kind == nodes[idx].kind,
        toggled(nodes, idx)[idx].depth == nodes[idx].depth,
        toggled(nodes, idx)[idx].is_array_element == nodes[idx].is_array_element,
        toggled(nodes, idx)[idx].children == nodes[idx].children,
{
}

/// Right, Enter, Space and `l` all do the same thing; on a closed line that can be opened,
/// they open that node and leave every other node as it was.
pub proof fn law_right_opens_like_enter(s: AppView, ctrl: bool)
    ensures
        normal_key_outcome(s, Key::Right, ctrl) == normal_key_outcome(s, Key::Enter, ctrl),
        normal_key_outcome(s, Key::Char('l'), ctrl) == normal_key_outcome(s, Key::Enter, ctrl),
        normal_key_outcome(s, Key::Char(' '), ctrl) == normal_key_outcome(s, Key::Enter, ctrl),
        ({
            let x = s.visible[s.cursor as int] as int;
            let after = normal_key_outcome(s, Key::Right, ctrl);
            !s.show_help && s.cursor < s.visible.len() && 0 <= x < s.nodes.len()
                && s.nodes[x].expandable() && !s.nodes[x].expanded ==> {
                &&& after.nodes.len() == s.nodes.len()
                &&& after.nodes[x].expanded
                &&& forall|j: int| 0 <= j < s.nodes.len() && j != x ==> #[trigger] after.nodes[j] == s.nodes[j]
            }
        }),
{
    let x = s.visible[s.cursor as int] as int;
    if !s.show_help && s.cursor < s.visible.len() && 0 <= x < s.nodes.len() {
        law_toggle_changes_only_that_node(s.nodes, x);
    }
}

/// A name ends in `.json`, in any ASCII case, with something before the dot.
pub open spec fn ends_in_dot_json(name: Seq<char>) -> bool {
    let n = name.len();
    &&& n >= 6
    &&& name[n - 5] == '.'
    &&& (name[n - 4] == 'j' || name[n - 4] == 'J')
    &&& (name[n - 3] == 's' || name[n - 3] == 'S')
    &&& (name[n - 2] == 'o' || name[n - 2] == 'O')
    &&& (name[n - 1] == 'n' || name[n - 1] == 'N')
}

proof fn lemma_ascii_ci(c: char, lower: char, upper: char)
    requires
        (upper as u32) + 32 == lower as u32,
    ensures
        crate::picker::ascii_ci_eq(c, lower) <==> (c == lower || c == upper),
{
    if (c as u32) + 32 == lower as u32 {
        assert(c as u32 == upper as u32);
        assert(c == upper);
    }
}

proof fn lemma_kept_sound(list: Seq<Entry>, show_hidden: bool, k: int)
    requires
        0 <= k <= list.len(),
    ensures
        forall|e: Entry| #[trigger] kept_files(list, show_hidden, k).contains(e) ==> {
            &&& list.take(k).contains(e)
            &&& !e.is_dir
            &&& ends_in_dot_json(e.name@)
            &&& (show_hidden || !(e.name@.len() > 0 && e.name@[0] == '.'))
        },
        forall|e: Entry| #[trigger] kept_dirs(list, show_hidden, k).contains(e) ==> {
            &&& list.take(k).contains(e)
            &&& e.is_dir
            &&& (show_hidden || !(e.name@.len() > 0 && e.name@[0] == '.'))
        },
        forall|m: int|
            0 <= m < k && !list[m].is_dir && ends_in_dot_json(list[m].name@) && (show_hidden || !(
            list[m].name@.len() > 0 && list[m].name@[0] == '.')) ==> kept_files(list, show_hidden, k).contains(
                #[trigger] list[m],
            ),
        forall|m: int|
            0 <= m < k && list[m].is_dir && (show_hidden || !(list[m].name@.len() > 0 && list[m].name@[0]
                == '.')) ==> kept_dirs(list, show_hidden, k).contains(#[trigger] list[m]),
    decreases k,
{
    if k > 0 {
        lemma_kept_sound(list, show_hidden, k - 1);
        let e = list[k - 1];
        let f0 = kept_files(list, show_hidden, k - 1);
        let d0 = kept_dirs(list, show_hidden, k - 1);
        assert(list.take(k) == list.take(k - 1).push(e));
        assert forall|x: Entry| list.take(k - 1).contains(x) implies list.take(k).contains(x) by {
            let j = choose|j: int| 0 <= j < list.take(k - 1).len() && #[trigger] list.take(k - 1)[j] == x;
            assert(list.take(k)[j] == x);
        }
        assert(list.take(k)[k - 1] == e);
        let fe = if (show_hidden || !crate::picker::is_hidden(e.name@)) && !e.is_dir
            && crate::picker::is_json_name(e.name@) {
            seq![e]
        } else {
            Seq::<Entry>::empty()
        };
        let de = if (show_hidden || !crate::picker::is_hidden(e.name@)) && e.is_dir {
            seq![e]
        } else {
            Seq::<Entry>::empty()
        };
        assert(kept_files(list, show_hidden, k) == f0 + fe);
        assert(kept_dirs(list, show_hidden, k) == d0 + de);
        let n = e.name@.len();
        if n >= 6 {
            lemma_ascii_ci(e.name@[n - 4], 'j', 'J');
            lemma_ascii_ci(e.name@[n - 3], 's', 'S');
            lemma_ascii_ci(e.name@[n - 2], 'o', 'O');
            lemma_ascii_ci(e.name@[n - 1], 'n', 'N');
        }
        assert(crate::picker::is_json_name(e.name@) <==> ends_in_dot_json(e.name@));
        assert forall|x: Entry| #[trigger] kept_files(list, show_hidden, k).contains(x) implies {
            &&& list.take(k).contains(x)
            &&& !x.is_dir
            &&& ends_in_dot_json(x.name@)
            &&& (show_hidden || !(x.name@.len() > 0 && x.name@[0] == '.'))
        } by {
            let j = choose|j: int| 0 <= j < (f0 + fe).len() && (f0 + fe)[j] == x;
            if j < f0.len() {
                assert(f0[j] == x);
                assert(f0.contains(x));
            } else {
                assert(fe[j - f0.len()] == x);
            }
        }
        assert forall|x: Entry| #[trigger] kept_dirs(list, show_hidden, k).contains(x) implies {
            &&& list.take(k).contains(x)
            &&& x.is_dir
            &&& (show_hidden || !(x.name@.len() > 0 && x.name@[0] == '.'))
        } by {
            let j = choose|j: int| 0 <= j < (d0 + de).len() && (d0 + de)[j] == x;
            if j < d0.len() {
                assert(d0[j] == x);
                assert(d0.contains(x));
            } else {
                assert(de[j - d0.len()] == x);
            }
        }
        assert forall|m: int|
            0 <= m < k && !list[m].is_dir && ends_in_dot_json(list[m].name@) && (show_hidden || !(
            list[m].name@.len() > 0 && list[m].name@[0] == '.')) implies kept_files(list, show_hidden, k).contains(
                #[trigger] list[m],
            ) by {
            if m < k - 1 {
                let j = choose|j: int| 0 <= j < f0.len() && f0[j] == list[m];
                assert((f0 + fe)[j] == list[m]);
            } else {
                assert((f0 + fe)[f0.len() as int] == list[m]);
            }
        }
        assert forall|m: int|
            0 <= m < k && list[m].is_dir && (show_hidden || !(list[m].name@.len() > 0 && list[m].name@[0]
                == '.')) implies kept_dirs(list, show_hidden, k).contains(#[trigger] list[m]) by {
            if m < k - 1 {
                let j = choose|j: int| 0 <= j < d0.len() && d0[j] == list[m];
                assert((d0 + de)[j] == list[m]);
            } else {
                assert((d0 + de)[d0.len() as int] == list[m]);
            }
        }
    }
}

/// The picker lists, after `..`, exactly the directories and the files whose name ends in
/// `.json` (any ASCII case) among what was read, leaving out names starting with a dot
/// unless hidden names are shown.
pub proof fn law_listing_holds_dirs_and_json_files(list: Seq<Entry>, show_hidden: bool)
    ensures
        ({
            let n = list.len() as int;
            let shown = sorted_by_name(kept_dirs(list, show_hidden, n)) + sorted_by_name(
                kept_files(list, show_hidden, n),
            );
            &&& forall|e: Entry| #[trigger] shown.contains(e) ==> {
                &&& list.contains(e)
                &&& (e.is_dir || ends_in_dot_json(e.name@))
                &&& (show_hidden || !(e.name@.len() > 0 && e.name@[0] == '.'))
            }
            &&& forall|m: int|
                0 <= m < n && (list[m].is_dir || ends_in_dot_json(list[m].name@)) && (show_hidden
                    || !(list[m].name@.len() > 0 && list[m].name@[0] == '.')) ==> shown.contains(
                    #[trigger] list[m],
                )
        }),
{
    broadcast use vstd::seq_lib::group_to_multiset_ensures;

    let n = list.len() as int;
    lemma_kept_sound(list, show_hidden, n);
    assert(list.take(n) =~= list);
    let kd = kept_dirs(list, show_hidden, n);
    let kf = kept_files(list, show_hidden, n);
    let sd = sorted_by_name(kd);
    let sf = sorted_by_name(kf);
    law_listing_sort_orders_by_name(kd);
    law_listing_sort_orders_by_name(kf);
    let shown = sd + sf;
    assert forall|e: Entry| #[trigger] shown.contains(e) implies {
        &&& list.contains(e)
        &&& (e.is_dir || ends_in_dot_json(e.name@))
        &&& (show_hidden || !(e.name@.len() > 0 && e.name@[0] == '.'))
    } by {
        let j = choose|j: int| 0 <= j < shown.len() && shown[j] == e;
        if j < sd.len() {
            assert(sd[j] == e);
            assert(sd.contains(e));
            assert(sd.to_multiset().count(e) > 0);
            assert(kd.contains(e));
        } else {
            assert(sf[j - sd.len()] == e);
            assert(sf.contains(e));
            assert(sf.to_multiset().count(e) > 0);
            assert(kf.contains(e));
        }
    }
    assert forall|m: int|
        0 <= m < n && (list[m].is_dir || ends_in_dot_json(list[m].name@)) && (show_hidden || !(
        list[m].name@.len() > 0 && list[m].name@[0] == '.')) implies shown.contains(#[trigger] list[m]) by {
        let e = list[m];
        if e.is_dir {
            assert(kd.contains(e));
            assert(kd.to_multiset().count(e) > 0);
            assert(sd.contains(e));
            let j = choose|j: int| 0 <= j < sd.len() && sd[j] == e;
            assert(shown[j] == e);
        } else {
            assert(kf.contains(e));
            assert(kf.to_multiset().count(e) > 0);
            assert(sf.contains(e));
            let j = choose|j: int| 0 <= j < sf.len() && sf[j] == e;
            assert(shown[sd.len() + j] == e);
        }
    }
}

proof fn lemma_items_each_child(nodes: Seq<TreeNode>, i: int, k: int)
    requires
        nodes_wf(nodes),
        0 <= i < nodes.len(),
        0 <= k <= nodes[i].children@.len(),
    ensures
        crate::tree::json_items(nodes, i, k).len() == k,
        forall|j: int| 0 <= j < k ==> #[trigger] crate::tree::json_items(nodes, i, k)[j] == json_of(
            nodes,
            nodes[i].children@[j] as int,
        ),
        crate::tree::json_members(nodes, i, k).len() == k,
        forall|j: int| 0 <= j < k ==> #[trigger] crate::tree::json_members(nodes, i, k)[j] == (
            match nodes[nodes[i].children@[j] as int].key {
                Some(key) => key@,
                None => Seq::<char>::empty(),
            },
            json_of(nodes, nodes[i].children@[j] as int),
        ),
    decreases k,
{
    if k > 0 {
        lemma_items_each_child(nodes, i, k - 1);
        let c = nodes[i].children@[k - 1] as int;
        assert(i < c < nodes.len());
    }
}

/// The value copied for an array holds one item per child, in order, each the value of that
/// child; the value copied for an object holds one member per child, in order, named by the
/// child's key (or the empty name) and holding the child's value. Nothing is left out.
pub proof fn law_copied_container_keeps_every_child(nodes: Seq<TreeNode>, i: int)
    requires
        nodes_wf(nodes),
        0 <= i < nodes.len(),
    ensures
        nodes[i].kind is Array ==> (json_of(nodes, i) matches JsonView::Array(items) && items.len()
            == nodes[i].children@.len() && forall|j: int|
            0 <= j < items.len() ==> #[trigger] items[j] == json_of(nodes, nodes[i].children@[j] as int)),
        nodes[i].kind is Object ==> (json_of(nodes, i) matches JsonView::Object(ms) && ms.len()
            == nodes[i].children@.len() && forall|j: int|
            0 <= j < ms.len() ==> #[trigger] ms[j] == (
                match nodes[nodes[i].children@[j] as int].key {
                    Some(key) => key@,
                    None => Seq::<char>::empty(),
                },
                json_of(nodes, nodes[i].children@[j] as int),
            )),
{
    lemma_items_each_child(nodes, i, nodes[i].children@.len() as int);
}

} // verus!
