use vstd::prelude::*;
use crate::json::{JsonValue, JsonView, pretty_of, serde_of, items_view, members_view, lemma_items_view_push, lemma_members_view_push};
use crate::text::{contains, decimal, lowercase, str_contains, to_lower, usize_to_string};

verus! {

/// What a node of the tree holds: a container with its number of members, or a scalar.
#[derive(Debug, Clone)]
pub enum NodeKind {
    Object(usize),
    Array(usize),
    String(String),
    Number(String),
    Bool(bool),
    Null,
}

/// One JSON value, laid out in an arena: its children are indices into the same arena.
#[derive(Debug, Clone)]
pub struct TreeNode {
    pub key: Option<String>,
    pub kind: NodeKind,
    pub depth: usize,
    pub expanded: bool,
    pub is_array_element: bool,
    pub children: Vec<usize>,
}

impl TreeNode {
    /// A node can be opened when it is a non-empty object or array.
    pub open spec fn expandable(&self) -> bool {
        match self.kind {
            NodeKind::Object(n) => n > 0,
            NodeKind::Array(n) => n > 0,
            _ => false,
        }
    }

    pub fn is_expandable(&self) -> (r: bool)
        ensures
            r == self.expandable(),
    {
        match &self.kind {
            NodeKind::Object(n) => *n > 0,
            NodeKind::Array(n) => *n > 0,
            _ => false,
        }
    }
}


/// The arena holding every node of a document, and the index of its root.
pub struct JsonTree {
    pub nodes: Vec<TreeNode>,
    pub root: usize,
}

/// The same node with only its open/closed flag replaced.
pub open spec fn with_expanded(n: TreeNode, e: bool) -> TreeNode {
    TreeNode { expanded: e, ..n }
}

/// The arena after `toggle(idx)`: the node's flag flips when it can be opened.
pub open spec fn toggled(nodes: Seq<TreeNode>, idx: int) -> Seq<TreeNode> {
    nodes.update(
        idx,
        with_expanded(
            nodes[idx],
            if nodes[idx].expandable() {
                !nodes[idx].expanded
            } else {
                nodes[idx].expanded
            },
        ),
    )
}

/// The arena after `expand_all`.
pub open spec fn all_expanded(nodes: Seq<TreeNode>) -> Seq<TreeNode> {
    Seq::new(nodes.len(), |i: int| with_expanded(nodes[i], nodes[i].expanded || nodes[i].expandable()))
}

/// The arena after `collapse_all` with root `root`.
pub open spec fn all_collapsed(nodes: Seq<TreeNode>, root: int) -> Seq<TreeNode> {
    Seq::new(nodes.len(), |i: int| with_expanded(nodes[i], i == root && nodes[i].expandable()))
}

/// The arena after `expand_to_depth(max_depth)`.
pub open spec fn expanded_to(nodes: Seq<TreeNode>, max_depth: int) -> Seq<TreeNode> {
    Seq::new(
        nodes.len(),
        |i: int|
            with_expanded(
                nodes[i],
                if nodes[i].expandable() {
                    nodes[i].depth < max_depth
                } else {
                    nodes[i].expanded
                },
            ),
    )
}

/// Every child index points strictly forward and inside the arena.
pub open spec fn nodes_wf(nodes: Seq<TreeNode>) -> bool {
    forall|i: int, j: int|
        #![trigger nodes[i].children@[j]]
        0 <= i < nodes.len() && 0 <= j < nodes[i].children@.len() ==> i < nodes[i].children@[j]
            < nodes.len()
}

/// The lines shown for node `i`: the node itself, then, when it is open, the lines of
/// each of its children in order.
pub open spec fn vis(nodes: Seq<TreeNode>, i: int) -> Seq<usize>
    decreases nodes.len() - i, nodes[i].children@.len() + 1,
{
    if 0 <= i < nodes.len() {
        seq![i as usize] + if nodes[i].expanded {
            vis_prefix(nodes, i, nodes[i].children@.len() as int)
        } else {
            Seq::<usize>::empty()
        }
    } else {
        Seq::<usize>::empty()
    }
}

/// Every line shown for node `i` is `i` itself or a node after it in the arena.
pub proof fn lemma_vis_bounds(nodes: Seq<TreeNode>, i: int)
    requires
        nodes_wf(nodes),
        0 <= i < nodes.len() <= usize::MAX,
    ensures
        forall|k: int| 0 <= k < vis(nodes, i).len() ==> i <= #[trigger] vis(nodes, i)[k] < nodes.len(),
    decreases nodes.len() - i, nodes[i].children@.len() + 1,
{
    let rest = if nodes[i].expanded {
        vis_prefix(nodes, i, nodes[i].children@.len() as int)
    } else {
        Seq::<usize>::empty()
    };
    if nodes[i].expanded {
        lemma_vis_prefix_bounds(nodes, i, nodes[i].children@.len() as int);
    }
    assert(vis(nodes, i) == seq![i as usize] + rest);
    assert forall|k: int| 0 <= k < vis(nodes, i).len() implies i <= #[trigger] vis(nodes, i)[k]
        < nodes.len() by {
        if k > 0 {
            assert(vis(nodes, i)[k] == rest[k - 1]);
        } else {
            assert(vis(nodes, i)[0] == i as usize);
        }
    }
}

/// Every line shown for the first `k` children of node `i` comes after `i` in the arena.
pub proof fn lemma_vis_prefix_bounds(nodes: Seq<TreeNode>, i: int, k: int)
    requires
        nodes_wf(nodes),
        0 <= i < nodes.len() <= usize::MAX,
        0 <= k <= nodes[i].children@.len(),
    ensures
        forall|m: int|
            0 <= m < vis_prefix(nodes, i, k).len() ==> i < #[trigger] vis_prefix(nodes, i, k)[m]
                < nodes.len(),
    decreases nodes.len() - i, k,
{
    if k > 0 {
        lemma_vis_prefix_bounds(nodes, i, k - 1);
        let c = nodes[i].children@[k - 1] as int;
        assert(i < c < nodes.len());
        lemma_vis_bounds(nodes, c);
        let a = vis_prefix(nodes, i, k - 1);
        let b = vis(nodes, c);
        assert(vis_prefix(nodes, i, k) == a + b);
        assert forall|m: int| 0 <= m < vis_prefix(nodes, i, k).len() implies i
            < #[trigger] vis_prefix(nodes, i, k)[m] < nodes.len() by {
            if m < a.len() {
                assert(vis_prefix(nodes, i, k)[m] == a[m]);
            } else {
                assert(vis_prefix(nodes, i, k)[m] == b[m - a.len()]);
            }
        }
    }
}

/// Changing only open/closed flags keeps the arena well formed.
pub proof fn lemma_same_shape_wf(old_nodes: Seq<TreeNode>, new_nodes: Seq<TreeNode>)
    requires
        nodes_wf(old_nodes),
        new_nodes.len() == old_nodes.len(),
        forall|i: int| 0 <= i < old_nodes.len() ==> (#[trigger] new_nodes[i]).children == old_nodes[i].children,
    ensures
        nodes_wf(new_nodes),
{
    assert forall|i: int, j: int|
        0 <= i < new_nodes.len() && 0 <= j < new_nodes[i].children@.len() implies i
        < #[trigger] new_nodes[i].children@[j] < new_nodes.len() by {
        assert(new_nodes[i].children == old_nodes[i].children);
        assert(i < old_nodes[i].children@[j] < old_nodes.len());
    }
}

/// The lines of the first `k` children of node `i`, one after the other.
pub open spec fn vis_prefix(nodes: Seq<TreeNode>, i: int, k: int) -> Seq<usize>
    decreases nodes.len() - i, k,
{
    if 0 <= i < nodes.len() && 0 < k <= nodes[i].children@.len() {
        let c = nodes[i].children@[k - 1] as int;
        vis_prefix(nodes, i, k - 1) + if i < c < nodes.len() {
            vis(nodes, c)
        } else {
            Seq::<usize>::empty()
        }
    } else {
        Seq::<usize>::empty()
    }
}

/// The text that a search query is held against for a boolean.
pub open spec fn bool_text(b: bool) -> Seq<char> {
    if b {
        seq!['t', 'r', 'u', 'e']
    } else {
        seq!['f', 'a', 'l', 's', 'e']
    }
}

/// A node matches a query when its key or its scalar value holds the query, ignoring
/// case; a number is held against the query as typed.
pub open spec fn node_matches_spec(node: TreeNode, query: Seq<char>) -> bool {
    let q = lowercase(query);
    ||| node.key matches Some(k) && contains(lowercase(k@), q)
    ||| match node.kind {
        NodeKind::String(s) => contains(lowercase(s@), q),
        NodeKind::Number(n) => contains(n@, query),
        NodeKind::Bool(b) => contains(bool_text(b), q),
        NodeKind::Null => contains(seq!['n', 'u', 'l', 'l'], q),
        _ => false,
    }
}

/// The piece a child adds to a path: `[key]` for an array element, `.key` for a member,
/// nothing for a node without a key.
pub open spec fn path_part(node: TreeNode) -> Seq<char> {
    match node.key {
        Some(k) => if node.is_array_element {
            seq!['['] + k@ + seq![']']
        } else {
            seq!['.'] + k@
        },
        None => Seq::<char>::empty(),
    }
}

/// The pieces of the path from `cur` down to `target`, found by a depth-first search
/// that tries the children in order and keeps the first hit.
pub open spec fn find_path(nodes: Seq<TreeNode>, cur: int, target: int) -> Option<Seq<Seq<char>>>
    decreases nodes.len() - cur, nodes[cur].children@.len() + 1,
{
    if !(0 <= cur < nodes.len()) {
        None
    } else if cur == target {
        Some(Seq::<Seq<char>>::empty())
    } else {
        find_path_prefix(nodes, cur, target, nodes[cur].children@.len() as int)
    }
}

/// The same search restricted to the first `k` children of `cur`.
pub open spec fn find_path_prefix(nodes: Seq<TreeNode>, cur: int, target: int, k: int) -> Option<
    Seq<Seq<char>>,
>
    decreases nodes.len() - cur, k,
{
    if 0 <= cur < nodes.len() && 0 < k <= nodes[cur].children@.len() {
        match find_path_prefix(nodes, cur, target, k - 1) {
            Some(p) => Some(p),
            None => {
                let c = nodes[cur].children@[k - 1] as int;
                if cur < c < nodes.len() {
                    match find_path(nodes, c, target) {
                        Some(p) => Some(seq![path_part(nodes[c])] + p),
                        None => None,
                    }
                } else {
                    None
                }
            },
        }
    } else {
        None
    }
}

/// Once the search has hit among the first `k` children, looking at more children keeps
/// that hit.
pub(crate) proof fn lemma_find_prefix_stable(nodes: Seq<TreeNode>, cur: int, target: int, k: int, m: int)
    requires
        0 <= cur < nodes.len(),
        0 <= k <= m <= nodes[cur].children@.len(),
        find_path_prefix(nodes, cur, target, k) is Some,
    ensures
        find_path_prefix(nodes, cur, target, m) == find_path_prefix(nodes, cur, target, k),
    decreases m - k,
{
    if m > k {
        lemma_find_prefix_stable(nodes, cur, target, k, m - 1);
    }
}

/// The path of `target` as shown to the user: `$` followed by its pieces, or `$` alone
/// when the target is not under the root.
pub open spec fn path_text(nodes: Seq<TreeNode>, root: int, target: int) -> Seq<char> {
    match find_path(nodes, root, target) {
        Some(p) => seq!['$'] + p.flatten(),
        None => seq!['$'],
    }
}

/// The key of a node as an object member name: the key, or the empty string.
pub open spec fn member_name(node: TreeNode) -> Seq<char> {
    match node.key {
        Some(k) => k@,
        None => Seq::<char>::empty(),
    }
}

/// The JSON value that node `i` stands for: scalars as they are, an array as its
/// children's values, an object as its children's names and values, in order.
pub open spec fn json_of(nodes: Seq<TreeNode>, i: int) -> JsonView
    decreases nodes.len() - i, nodes[i].children@.len() + 1,
{
    if !(0 <= i < nodes.len()) {
        JsonView::Null
    } else {
        match nodes[i].kind {
            NodeKind::Null => JsonView::Null,
            NodeKind::Bool(b) => JsonView::Bool(b),
            NodeKind::Number(n) => JsonView::Number(n@),
            NodeKind::String(s) => JsonView::Str(s@),
            NodeKind::Array(_) => JsonView::Array(json_items(nodes, i, nodes[i].children@.len() as int)),
            NodeKind::Object(_) => JsonView::Object(
                json_members(nodes, i, nodes[i].children@.len() as int),
            ),
        }
    }
}

/// The values of the first `k` children of node `i`.
pub open spec fn json_items(nodes: Seq<TreeNode>, i: int, k: int) -> Seq<JsonView>
    decreases nodes.len() - i, k,
{
    if 0 <= i < nodes.len() && 0 < k <= nodes[i].children@.len() {
        let c = nodes[i].children@[k - 1] as int;
        json_items(nodes, i, k - 1).push(
            if i < c < nodes.len() {
                json_of(nodes, c)
            } else {
                JsonView::Null
            },
        )
    } else {
        Seq::<JsonView>::empty()
    }
}

/// The names and values of the first `k` children of node `i`.
pub open spec fn json_members(nodes: Seq<TreeNode>, i: int, k: int) -> Seq<(Seq<char>, JsonView)>
    decreases nodes.len() - i, k,
{
    if 0 <= i < nodes.len() && 0 < k <= nodes[i].children@.len() {
        let c = nodes[i].children@[k - 1] as int;
        json_members(nodes, i, k - 1).push(
            if i < c < nodes.len() {
                (member_name(nodes[c]), json_of(nodes, c))
            } else {
                (Seq::<char>::empty(), JsonView::Null)
            },
        )
    } else {
        Seq::<(Seq<char>, JsonView)>::empty()
    }
}

/// The text copied for a scalar node; `None` for objects and arrays.
pub open spec fn scalar_text(node: TreeNode) -> Option<Seq<char>> {
    match node.kind {
        NodeKind::String(s) => Some(s@),
        NodeKind::Number(n) => Some(n@),
        NodeKind::Bool(b) => Some(bool_text(b)),
        NodeKind::Null => Some(seq!['n', 'u', 'l', 'l']),
        _ => None,
    }
}

/// The text copied for node `i`: a scalar as it reads, an object or array as the indented
/// JSON text `serde_json` writes for its value.
pub open spec fn copied_text(nodes: Seq<TreeNode>, i: int) -> Seq<char> {
    match scalar_text(nodes[i]) {
        Some(t) => t,
        None => pretty_of(serde_of(json_of(nodes, i))),
    }
}

/// The views of a list of strings.
pub open spec fn views(v: Seq<String>) -> Seq<Seq<char>> {
    v.map_values(|s: String| s@)
}

impl JsonTree {
    /// The root exists and the arena is a forest whose edges point forward.
    pub open spec fn wf(&self) -> bool {
        &&& self.root < self.nodes@.len()
        &&& nodes_wf(self.nodes@)
    }

    /// The lines on screen: the visible nodes in document order.
    pub open spec fn visible(&self) -> Seq<usize> {
        vis(self.nodes@, self.root as int)
    }

    /// Checks `wf`: the root exists and every child index points forward inside the arena.
    pub fn is_well_formed(&self) -> (r: bool)
        ensures
            r == self.wf(),
    {
        let n = self.nodes.len();
        if self.root >= n {
            return false;
        }
        let mut i: usize = 0;
        while i < n
            invariant
                n == self.nodes@.len(),
                i <= n,
                forall|a: int, b: int|
                    #![trigger self.nodes@[a].children@[b]]
                    0 <= a < i && 0 <= b < self.nodes@[a].children@.len() ==> a
                        < self.nodes@[a].children@[b] < n,
            decreases n - i,
        {
            let children = &self.nodes[i].children;
            let m = children.len();
            let mut j: usize = 0;
            while j < m
                invariant
                    n == self.nodes@.len(),
                    i < n,
                    children == self.nodes@[i as int].children,
                    m == children@.len(),
                    j <= m,
                    forall|a: int, b: int|
                        #![trigger self.nodes@[a].children@[b]]
                        0 <= a < i && 0 <= b < self.nodes@[a].children@.len() ==> a
                            < self.nodes@[a].children@[b] < n,
                    forall|b: int| 0 <= b < j ==> i < #[trigger] children@[b] < n,
                decreases m - j,
            {
                let c = children[j];
                if c <= i || c >= n {
                    return false;
                }
                j += 1;
            }
            i += 1;
        }
        true
    }

    pub fn visible_lines(&self) -> (lines: Vec<usize>)
        requires
            self.wf(),
        ensures
            lines@ == self.visible(),
    {
        let mut lines = Vec::new();
        self.collect_visible(self.root, &mut lines);
        lines
    }

    fn collect_visible(&self, idx: usize, lines: &mut Vec<usize>)
        requires
            self.wf(),
            idx < self.nodes@.len(),
        ensures
            final(lines)@ == old(lines)@ + vis(self.nodes@, idx as int),
        decreases self.nodes@.len() - idx,
    {
        lines.push(idx);
        let node = &self.nodes[idx];
        if node.expanded {
            let n = node.children.len();
            let mut k: usize = 0;
            while k < n
                invariant
                    self.wf(),
                    idx < self.nodes@.len(),
                    node == self.nodes@[idx as int],
                    n == node.children@.len(),
                    k <= n,
                    lines@ == old(lines)@ + seq![idx] + vis_prefix(self.nodes@, idx as int, k as int),
                decreases n - k,
            {
                let child = node.children[k];
                assert(idx < child < self.nodes@.len());
                self.collect_visible(child, lines);
                k += 1;
            }
        }
        assert(lines@ =~= old(lines)@ + vis(self.nodes@, idx as int));
    }

    /// Opens a closed node or closes an open one; a node that cannot be opened stays.
    pub fn toggle(&mut self, idx: usize)
        requires
            idx < old(self).nodes@.len(),
        ensures
            final(self).root == old(self).root,
            final(self).nodes@ == toggled(old(self).nodes@, idx as int),
    {
        if self.nodes[idx].is_expandable() {
            self.nodes[idx].expanded = !self.nodes[idx].expanded;
        }
        assert(self.nodes@ =~= toggled(old(self).nodes@, idx as int));
    }

    pub fn node_matches(&self, idx: usize, query: &str) -> (r: bool)
        requires
            idx < self.nodes@.len(),
        ensures
            r == node_matches_spec(self.nodes@[idx as int], query@),
    {
        let node = &self.nodes[idx];
        let q = to_lower(query);
        if let Some(k) = &node.key {
            let lk = to_lower(k.as_str());
            if str_contains(lk.as_str(), q.as_str()) {
                return true;
            }
        }
        match &node.kind {
            NodeKind::String(s) => {
                let ls = to_lower(s.as_str());
                str_contains(ls.as_str(), q.as_str())
            },
            NodeKind::Number(n) => str_contains(n.as_str(), query),
            NodeKind::Bool(b) => {
                let t = if *b {
                    proof { reveal_strlit("true"); }
                    "true"
                } else {
                    proof { reveal_strlit("false"); }
                    "false"
                };
                assert(t@ == bool_text(*b));
                str_contains(t, q.as_str())
            },
            NodeKind::Null => {
                proof { reveal_strlit("null"); }
                assert("null"@ =~= seq!['n', 'u', 'l', 'l']);
                str_contains("null", q.as_str())
            },
            _ => false,
        }
    }

    /// The path of `target`, such as `$.items[2].name`.
    pub fn get_path(&self, target: usize) -> (path: String)
        requires
            self.wf(),
        ensures
            path@ == path_text(self.nodes@, self.root as int, target as int),
    {
        let mut parts: Vec<String> = Vec::new();
        proof { reveal_strlit("$"); }
        let mut out = String::from_str("$");
        if self.build_path(self.root, target, &mut parts) {
            let ghost p = find_path(self.nodes@, self.root as int, target as int).unwrap();
            assert(views(parts@) =~= p);
            let n = parts.len();
            let mut i: usize = 0;
            while i < n
                invariant
                    n == parts@.len(),
                    views(parts@) == p,
                    i <= n,
                    out@ == seq!['$'] + p.take(i as int).flatten(),
                decreases n - i,
            {
                out.append(parts[i].as_str());
                proof {
                    assert(p.take(i + 1) =~= p.take(i as int).push(p[i as int]));
                    p.take(i as int).lemma_flatten_push(p[i as int]);
                }
                i += 1;
            }
            assert(p.take(n as int) =~= p);
        }
        out
    }

    fn part_of(&self, child: usize) -> (part: String)
        requires
            child < self.nodes@.len(),
        ensures
            part@ == path_part(self.nodes@[child as int]),
    {
        let child_node = &self.nodes[child];
        match &child_node.key {
            Some(k) => {
                if child_node.is_array_element {
                    proof { reveal_strlit("["); reveal_strlit("]"); }
                    let mut part = String::from_str("[");
                    part.append(k.as_str());
                    part.append("]");
                    assert(part@ =~= seq!['['] + k@ + seq![']']);
                    part
                } else {
                    proof { reveal_strlit("."); }
                    let mut part = String::from_str(".");
                    part.append(k.as_str());
                    assert(part@ =~= seq!['.'] + k@);
                    part
                }
            },
            None => String::new(),
        }
    }

    fn build_path(&self, current: usize, target: usize, parts: &mut Vec<String>) -> (found: bool)
        requires
            self.wf(),
            current < self.nodes@.len(),
        ensures
            found == find_path(self.nodes@, current as int, target as int) is Some,
            found ==> views(final(parts)@) == views(old(parts)@) + find_path(
                self.nodes@,
                current as int,
                target as int,
            ).unwrap(),
            !found ==> final(parts)@ == old(parts)@,
        decreases self.nodes@.len() - current,
    {
        if current == target {
            assert(views(parts@) =~= views(old(parts)@) + Seq::<Seq<char>>::empty());
            return true;
        }
        let node = &self.nodes[current];
        let n = node.children.len();
        let mut k: usize = 0;
        while k < n
            invariant
                self.wf(),
                current < self.nodes@.len(),
                current != target,
                node == self.nodes@[current as int],
                n == node.children@.len(),
                k <= n,
                find_path_prefix(self.nodes@, current as int, target as int, k as int) is None,
                parts@ == old(parts)@,
            decreases n - k,
        {
            let child = node.children[k];
            assert(current < child < self.nodes@.len());
            let part = self.part_of(child);
            let ghost before = parts@;
            parts.push(part);
            if self.build_path(child, target, parts) {
                proof {
                    let p = find_path(self.nodes@, child as int, target as int).unwrap();
                    assert(find_path_prefix(self.nodes@, current as int, target as int, k + 1)
                        == Some(seq![path_part(self.nodes@[child as int])] + p));
                    lemma_find_prefix_stable(self.nodes@, current as int, target as int, k + 1, n as int);
                    assert(views(before.push(part)) =~= views(before).push(part@));
                    assert(views(parts@) =~= views(old(parts)@) + (seq![path_part(
                        self.nodes@[child as int],
                    )] + p));
                }
                return true;
            }
            parts.pop();
            assert(parts@ =~= old(parts)@);
            k += 1;
        }
        false
    }

    /// The value of node `idx` and everything under it.
    pub fn node_to_json(&self, idx: usize) -> (v: JsonValue)
        requires
            self.wf(),
            idx < self.nodes@.len(),
        ensures
            v.view_of() == json_of(self.nodes@, idx as int),
        decreases self.nodes@.len() - idx,
    {
        let node = &self.nodes[idx];
        match &node.kind {
            NodeKind::Null => JsonValue::Null,
            NodeKind::Bool(b) => JsonValue::Bool(*b),
            NodeKind::Number(n) => JsonValue::Number(n.clone()),
            NodeKind::String(s) => JsonValue::String(s.clone()),
            NodeKind::Object(_) => {
                let mut members: Vec<(String, JsonValue)> = Vec::new();
                let n = node.children.len();
                let mut k: usize = 0;
                while k < n
                    invariant
                        self.wf(),
                        idx < self.nodes@.len(),
                        node == self.nodes@[idx as int],
                        n == node.children@.len(),
                        k <= n,
                        members@.len() == k,
                        members_view(members@, k as int) == json_members(
                            self.nodes@,
                            idx as int,
                            k as int,
                        ),
                    decreases n - k,
                {
                    let c = node.children[k];
                    assert(idx < c < self.nodes@.len());
                    let key = match &self.nodes[c].key {
                        Some(key) => key.clone(),
                        None => String::new(),
                    };
                    let value = self.node_to_json(c);
                    let ghost before = members@;
                    members.push((key, value));
                    proof {
                        lemma_members_view_push(before, (key, value), k as int);
                    }
                    k += 1;
                }
                JsonValue::Object(members)
            },
            NodeKind::Array(_) => {
                let mut items: Vec<JsonValue> = Vec::new();
                let n = node.children.len();
                let mut k: usize = 0;
                while k < n
                    invariant
                        self.wf(),
                        idx < self.nodes@.len(),
                        node == self.nodes@[idx as int],
                        n == node.children@.len(),
                        k <= n,
                        items@.len() == k,
                        items_view(items@, k as int) == json_items(self.nodes@, idx as int, k as int),
                    decreases n - k,
                {
                    let c = node.children[k];
                    assert(idx < c < self.nodes@.len());
                    let value = self.node_to_json(c);
                    let ghost before = items@;
                    items.push(value);
                    proof {
                        lemma_items_view_push(before, value, k as int);
                    }
                    k += 1;
                }
                JsonValue::Array(items)
            },
        }
    }

    /// The text copied for node `idx`: a scalar as it reads, a container as indented JSON.
    pub fn node_value_string(&self, idx: usize) -> (text: String)
        requires
            self.wf(),
            idx < self.nodes@.len(),
        ensures
            text@ == copied_text(self.nodes@, idx as int),
    {
        match &self.nodes[idx].kind {
            NodeKind::String(s) => s.clone(),
            NodeKind::Number(n) => n.clone(),
            NodeKind::Bool(b) => {
                if *b {
                    proof { reveal_strlit("true"); }
                    String::from_str("true")
                } else {
                    proof { reveal_strlit("false"); }
                    String::from_str("false")
                }
            },
            NodeKind::Null => {
                proof { reveal_strlit("null"); }
                String::from_str("null")
            },
            NodeKind::Object(_) | NodeKind::Array(_) => self.node_to_json(idx).to_pretty_string(),
        }
    }

    /// Opens every node that can be opened; nothing else changes.
    pub fn expand_all(&mut self)
        ensures
            final(self).root == old(self).root,
            final(self).nodes@ == all_expanded(old(self).nodes@),
    {
        let n = self.nodes.len();
        let mut i: usize = 0;
        while i < n
            invariant
                n == old(self).nodes@.len(),
                self.root == old(self).root,
                self.nodes@.len() == n,
                i <= n,
                forall|j: int| 0 <= j < i ==> #[trigger] self.nodes@[j] == all_expanded(old(self).nodes@)[j],
                forall|j: int| i <= j < n ==> #[trigger] self.nodes@[j] == old(self).nodes@[j],
            decreases n - i,
        {
            if self.nodes[i].is_expandable() {
                self.nodes[i].expanded = true;
            }
            i += 1;
        }
        assert(self.nodes@ =~= all_expanded(old(self).nodes@));
    }

    /// Closes every node, then opens the root again when it can be opened.
    pub fn collapse_all(&mut self)
        requires
            old(self).root < old(self).nodes@.len(),
        ensures
            final(self).root == old(self).root,
            final(self).nodes@ == all_collapsed(old(self).nodes@, old(self).root as int),
    {
        let n = self.nodes.len();
        let mut i: usize = 0;
        while i < n
            invariant
                n == old(self).nodes@.len(),
                self.root == old(self).root,
                self.nodes@.len() == n,
                i <= n,
                forall|j: int| 0 <= j < i ==> #[trigger] self.nodes@[j] == with_expanded(old(self).nodes@[j], false),
                forall|j: int| i <= j < n ==> #[trigger] self.nodes@[j] == old(self).nodes@[j],
            decreases n - i,
        {
            self.nodes[i].expanded = false;
            i += 1;
        }
        let root = self.root;
        if self.nodes[root].is_expandable() {
            self.nodes[root].expanded = true;
        }
        assert(self.nodes@ =~= all_collapsed(old(self).nodes@, old(self).root as int));
    }

    /// Opens each openable node above depth `max_depth` and closes the deeper ones.
    pub fn expand_to_depth(&mut self, max_depth: usize)
        ensures
            final(self).root == old(self).root,
            final(self).nodes@ == expanded_to(old(self).nodes@, max_depth as int),
    {
        let n = self.nodes.len();
        let mut i: usize = 0;
        while i < n
            invariant
                n == old(self).nodes@.len(),
                self.root == old(self).root,
                self.nodes@.len() == n,
                i <= n,
                forall|j: int| 0 <= j < i ==> #[trigger] self.nodes@[j] == expanded_to(old(self).nodes@, max_depth as int)[j],
                forall|j: int| i <= j < n ==> #[trigger] self.nodes@[j] == old(self).nodes@[j],
            decreases n - i,
        {
            if self.nodes[i].is_expandable() {
                self.nodes[i].expanded = self.nodes[i].depth < max_depth;
            }
            i += 1;
        }
        assert(self.nodes@ =~= expanded_to(old(self).nodes@, max_depth as int));
    }
}

/// Where the next value read from the document goes: its key, its depth, and whether it
/// is an array element.
pub struct TreeSeed {
    pub key: Option<String>,
    pub depth: usize,
    pub is_array_element: bool,
}

/// Node `n` was built from `seed` with `kind`, closed and without children.
pub open spec fn built_from(n: TreeNode, seed: TreeSeed, kind: NodeKind, expanded: bool) -> bool {
    &&& n.key == seed.key
    &&& n.kind == kind
    &&& n.depth == seed.depth
    &&& n.expanded == expanded
    &&& n.is_array_element == seed.is_array_element
    &&& n.children@.len() == 0
}

impl TreeSeed {
    pub fn new(key: Option<String>, depth: usize, is_array_element: bool) -> (seed: Self)
        ensures
            seed.key == key,
            seed.depth == depth,
            seed.is_array_element == is_array_element,
    {
        TreeSeed { key, depth, is_array_element }
    }

    /// The seed for element `i` of an array whose node sits at depth `depth`: its key is
    /// the index written in decimal.
    pub fn element(depth: usize, i: usize) -> (seed: Self)
        requires
            depth < usize::MAX,
        ensures
            seed.key matches Some(k) && k@ == decimal(i as nat),
            seed.depth == depth + 1,
            seed.is_array_element,
    {
        TreeSeed { key: Some(usize_to_string(i)), depth: depth + 1, is_array_element: true }
    }

    /// The seed for the member `key` of an object whose node sits at depth `depth`.
    pub fn member(depth: usize, key: String) -> (seed: Self)
        requires
            depth < usize::MAX,
        ensures
            seed.key == Some(key),
            seed.depth == depth + 1,
            !seed.is_array_element,
    {
        TreeSeed { key: Some(key), depth: depth + 1, is_array_element: false }
    }

    /// Appends a scalar node and returns its index.
    pub fn push_leaf(self, nodes: &mut Vec<TreeNode>, kind: NodeKind) -> (idx: usize)
        ensures
            idx == old(nodes)@.len(),
            final(nodes)@.len() == old(nodes)@.len() + 1,
            final(nodes)@.take(idx as int) == old(nodes)@,
            built_from(final(nodes)@[idx as int], self, kind, false),
            nodes_wf(old(nodes)@) ==> nodes_wf(final(nodes)@),
    {
        let idx = nodes.len();
        let ghost seed = self;
        let ghost k = kind;
        nodes.push(
            TreeNode {
                key: self.key,
                kind,
                depth: self.depth,
                expanded: false,
                is_array_element: self.is_array_element,
                children: Vec::new(),
            },
        );
        assert(nodes@.take(idx as int) =~= old(nodes)@);
        idx
    }

    /// Appends an empty array (or object) node, open when it sits at the top, and returns
    /// its index; its members follow it in the arena.
    pub fn open_container(self, nodes: &mut Vec<TreeNode>, is_array: bool) -> (idx: usize)
        ensures
            idx == old(nodes)@.len(),
            final(nodes)@.len() == old(nodes)@.len() + 1,
            final(nodes)@.take(idx as int) == old(nodes)@,
            built_from(
                final(nodes)@[idx as int],
                self,
                if is_array {
                    NodeKind::Array(0)
                } else {
                    NodeKind::Object(0)
                },
                self.depth < 1,
            ),
            nodes_wf(old(nodes)@) ==> nodes_wf(final(nodes)@),
    {
        let idx = nodes.len();
        let kind = if is_array {
            NodeKind::Array(0)
        } else {
            NodeKind::Object(0)
        };
        let expanded = self.depth < 1;
        nodes.push(
            TreeNode {
                key: self.key,
                kind,
                depth: self.depth,
                expanded,
                is_array_element: self.is_array_element,
                children: Vec::new(),
            },
        );
        assert(nodes@.take(idx as int) =~= old(nodes)@);
        idx
    }
}

/// Gives the container at `idx` its children and makes it an array (or an object) with
/// that many members.
pub fn close_container(nodes: &mut Vec<TreeNode>, idx: usize, children: Vec<usize>, is_array: bool)
    requires
        idx < old(nodes)@.len(),
    ensures
        final(nodes)@.len() == old(nodes)@.len(),
        forall|i: int|
            0 <= i < old(nodes)@.len() && i != idx ==> #[trigger] final(nodes)@[i] == old(
                nodes,
            )@[i],
        final(nodes)@[idx as int].children == children,
        final(nodes)@[idx as int].kind == if is_array {
            NodeKind::Array(children@.len() as usize)
        } else {
            NodeKind::Object(children@.len() as usize)
        },
        final(nodes)@[idx as int].key == old(nodes)@[idx as int].key,
        final(nodes)@[idx as int].depth == old(nodes)@[idx as int].depth,
        final(nodes)@[idx as int].expanded == old(nodes)@[idx as int].expanded,
        final(nodes)@[idx as int].is_array_element == old(nodes)@[idx as int].is_array_element,
        nodes_wf(old(nodes)@) && (forall|j: int|
            0 <= j < children@.len() ==> idx < #[trigger] children@[j] < old(nodes)@.len())
            ==> nodes_wf(final(nodes)@),
{
    let count = children.len();
    if is_array {
        nodes[idx].kind = NodeKind::Array(count);
    } else {
        nodes[idx].kind = NodeKind::Object(count);
    }
    nodes[idx].children = children;
}

} // verus!
