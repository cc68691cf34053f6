//! What holds of expanding and pruning the layout tree: nodes are never
//! altered, only given children or relieved of them; a call never makes more
//! expansions than its budget; repeated calls reach a fixed point; and what
//! was expanded is not pruned while the camera stays where it is.

use vstd::prelude::*;
use crate::fixed::{mul_sat, lemma_mul_sat_nonneg};
use crate::geometry::{Point, Rect};
use crate::camera::Camera;
use crate::scanner::FileNode;
use crate::treemap::layout_spec;
use crate::treemap_laws::{lemma_layout_keeps_order, lemma_layout_tiles, within};
use crate::world_layout::{
    ChainEntry, NodeView, EXPAND_THRESHOLD, PAD_FRACTION, PRUNE_FLOOR, chain_from, spec_header_fraction, all_consistent, consistent, expand_from, expand_node, fresh_node, keeps_children, laid_out, pruned,
    pruned_all, screen_rect, spec_content_rect, spec_next_depth, visible,
};

verus! {

/// Whether two nodes agree in all that is fixed when a node is made: its
/// rectangle, depth, name, size, kind, colour and the position of its file.
pub open spec fn same_identity(a: NodeView, b: NodeView) -> bool {
    &&& a.world_rect == b.world_rect
    &&& a.depth == b.depth
    &&& a.name == b.name
    &&& a.size == b.size
    &&& a.is_dir == b.is_dir
    &&& a.has_children == b.has_children
    &&& a.color_index == b.color_index
    &&& a.child_index == b.child_index
}

/// Whether `after` is `before` with nothing but children added: the node is
/// the same, and if it was expanded it still is, with the same number of
/// children, each of them grown from what it was.
pub open spec fn grown_from(before: NodeView, after: NodeView) -> bool
    decreases before,
{
    &&& same_identity(before, after)
    &&& before.children_expanded ==> {
        &&& after.children_expanded
        &&& after.children.len() == before.children.len()
        &&& forall|i: int| 0 <= i < before.children.len() ==> grown_from(#[trigger] before.children[i], after.children[i])
    }
}

/// Whether `after` is `before` with nothing but children dropped: the node is
/// the same; if it is still expanded it was before, with the same number of
/// children, each of them cut back from what it was; and if it is not, it
/// holds no children or is as it was.
pub open spec fn cut_back_from(before: NodeView, after: NodeView) -> bool
    decreases before,
{
    &&& same_identity(before, after)
    &&& !after.children_expanded ==> after.children.len() == 0 || after == before
    &&& after.children_expanded ==> {
        &&& before.children_expanded
        &&& after.children.len() == before.children.len()
        &&& forall|i: int| 0 <= i < before.children.len() ==> cut_back_from(#[trigger] before.children[i], after.children[i])
    }
}

/// A node has grown from itself.
pub proof fn lemma_grown_from_self(node: NodeView)
    ensures
        grown_from(node, node),
    decreases node,
{
    if node.children_expanded {
        assert forall|i: int| 0 <= i < node.children.len() implies grown_from(#[trigger] node.children[i], node.children[i]) by {
            lemma_grown_from_self(node.children[i]);
        }
    }
}

/// Growing composes.
pub proof fn lemma_grown_trans(a: NodeView, b: NodeView, c: NodeView)
    requires
        grown_from(a, b),
        grown_from(b, c),
    ensures
        grown_from(a, c),
    decreases a,
{
    if a.children_expanded {
        assert forall|i: int| 0 <= i < a.children.len() implies grown_from(#[trigger] a.children[i], c.children[i]) by {
            assert(grown_from(a.children[i], b.children[i]));
            assert(grown_from(b.children[i], c.children[i]));
            lemma_grown_trans(a.children[i], b.children[i], c.children[i]);
        }
    }
}

/// Freshly laid out nodes are consistent.
pub proof fn lemma_fresh_consistent(file: FileNode, parent_rect: Rect, depth: usize)
    ensures
        all_consistent(laid_out(file, parent_rect, depth)),
{
    let nodes = laid_out(file, parent_rect, depth);
    assert forall|i: int| 0 <= i < nodes.len() implies consistent(#[trigger] nodes[i]) by {
        assert(nodes[i].children.len() == 0);
    }
}

/// Expanding a node only adds children at or below it, keeps it consistent,
/// and makes no more expansions than the budget allows.
pub proof fn lemma_expand_node_only_adds(node: NodeView, file: FileNode, camera: Camera, viewport: Rect, used: int, budget: int)
    requires
        used < budget,
    ensures
        grown_from(node, expand_node(node, file, camera, viewport, used, budget).0),
        consistent(node) ==> consistent(expand_node(node, file, camera, viewport, used, budget).0),
        used <= expand_node(node, file, camera, viewport, used, budget).1 <= budget,
    decreases file, 0int, 0int,
{
    let out = expand_node(node, file, camera, viewport, used, budget);
    if !visible(camera, node, viewport) || node.child_index >= file.children@.len() {
        lemma_grown_from_self(node);
    } else {
        let child_file = file.children@[node.child_index as int];
        if out.0.children_expanded {
            if !node.children_expanded {
                let content = spec_content_rect(node.world_rect, node.depth);
                let depth = spec_next_depth(node.depth);
                lemma_fresh_consistent(child_file, content, depth);
                lemma_expand_only_adds(laid_out(child_file, content, depth), 0, child_file, camera, viewport, used + 1, budget);
            } else {
                if consistent(node) {
                    assert(all_consistent(node.children));
                }
                lemma_expand_only_adds(node.children, 0, child_file, camera, viewport, used, budget);
            }
            if consistent(node) {
                assert(all_consistent(out.0.children));
            }
        } else {
            lemma_grown_from_self(node);
        }
    }
}

/// Expanding only adds: the nodes stay in place, every node is what it was
/// with children added at or below it, consistent nodes stay consistent, and
/// the count of expansions grows, but not beyond the budget.
pub proof fn lemma_expand_only_adds(
    nodes: Seq<NodeView>,
    idx: int,
    file: FileNode,
    camera: Camera,
    viewport: Rect,
    used: int,
    budget: int,
)
    requires
        0 <= idx,
    ensures
        expand_from(nodes, idx, file, camera, viewport, used, budget).0.len() == nodes.len(),
        forall|i: int| 0 <= i < idx && i < nodes.len() ==> #[trigger] expand_from(nodes, idx, file, camera, viewport, used, budget).0[i]
            == nodes[i],
        forall|i: int| 0 <= i < nodes.len() ==> grown_from(#[trigger] nodes[i], expand_from(nodes, idx, file, camera, viewport, used, budget).0[i]),
        all_consistent(nodes) ==> all_consistent(expand_from(nodes, idx, file, camera, viewport, used, budget).0),
        used <= expand_from(nodes, idx, file, camera, viewport, used, budget).1,
        used <= budget ==> expand_from(nodes, idx, file, camera, viewport, used, budget).1 <= budget,
    decreases file, 1int, nodes.len() - idx,
{
    let out = expand_from(nodes, idx, file, camera, viewport, used, budget).0;
    if idx >= nodes.len() || used >= budget {
        assert forall|i: int| 0 <= i < nodes.len() implies grown_from(#[trigger] nodes[i], out[i]) by {
            lemma_grown_from_self(nodes[i]);
        }
    } else {
        let step = expand_node(nodes[idx], file, camera, viewport, used, budget);
        let next = nodes.update(idx, step.0);
        lemma_expand_node_only_adds(nodes[idx], file, camera, viewport, used, budget);
        lemma_expand_only_adds(next, idx + 1, file, camera, viewport, step.1, budget);
        assert forall|i: int| 0 <= i < idx && i < nodes.len() implies #[trigger] out[i] == nodes[i] by {
            assert(next[i] == nodes[i]);
        }
        assert forall|i: int| 0 <= i < nodes.len() implies grown_from(#[trigger] nodes[i], out[i]) by {
            assert(grown_from(next[i], out[i]));
            if i == idx {
                lemma_grown_trans(nodes[idx], step.0, out[i]);
            }
        }
        if all_consistent(nodes) {
            assert forall|i: int| 0 <= i < next.len() implies consistent(#[trigger] next[i]) by {
                if i != idx {
                    assert(consistent(nodes[i]));
                }
            }
        }
    }
}

/// The expansion budget is kept: starting from no expansions, a call makes at
/// most `budget` of them.
pub proof fn lemma_expand_within_budget(nodes: Seq<NodeView>, file: FileNode, camera: Camera, viewport: Rect, budget: int)
    requires
        0 <= budget,
    ensures
        0 <= expand_from(nodes, 0, file, camera, viewport, 0, budget).1 <= budget,
{
    lemma_expand_only_adds(nodes, 0, file, camera, viewport, 0, budget);
}

/// A node that has been expanded below budget is left as it is by expanding
/// it again, with the same camera and viewport and any budget.
pub proof fn lemma_expand_node_settles(
    node: NodeView,
    file: FileNode,
    camera: Camera,
    viewport: Rect,
    used: int,
    budget: int,
    used_again: int,
    budget_again: int,
)
    requires
        used < budget,
        expand_node(node, file, camera, viewport, used, budget).1 < budget,
    ensures
        ({
            let out = expand_node(node, file, camera, viewport, used, budget).0;
            expand_node(out, file, camera, viewport, used_again, budget_again) == (out, used_again)
        }),
    decreases file, 0int, 0int,
{
    let out = expand_node(node, file, camera, viewport, used, budget).0;
    if !visible(camera, node, viewport) || node.child_index >= file.children@.len() {
    } else if out.children_expanded {
        let child_file = file.children@[node.child_index as int];
        if !node.children_expanded {
            let content = spec_content_rect(node.world_rect, node.depth);
            let depth = spec_next_depth(node.depth);
            lemma_expand_settles(
                laid_out(child_file, content, depth),
                0,
                child_file,
                camera,
                viewport,
                used + 1,
                budget,
                used_again,
                budget_again,
            );
        } else {
            lemma_expand_settles(node.children, 0, child_file, camera, viewport, used, budget, used_again, budget_again);
        }
        assert((NodeView { children: out.children, ..out }) == out);
    }
}

/// Once expanding from `idx` has ended below its budget, expanding the result
/// again from `idx`, with the same camera and viewport and any budget,
/// changes nothing and makes no expansion.
pub proof fn lemma_expand_settles(
    nodes: Seq<NodeView>,
    idx: int,
    file: FileNode,
    camera: Camera,
    viewport: Rect,
    used: int,
    budget: int,
    used_again: int,
    budget_again: int,
)
    requires
        0 <= idx,
        expand_from(nodes, idx, file, camera, viewport, used, budget).1 < budget,
    ensures
        ({
            let out = expand_from(nodes, idx, file, camera, viewport, used, budget).0;
            expand_from(out, idx, file, camera, viewport, used_again, budget_again) == (out, used_again)
        }),
    decreases file, 1int, nodes.len() - idx,
{
    let out = expand_from(nodes, idx, file, camera, viewport, used, budget).0;
    lemma_expand_only_adds(nodes, idx, file, camera, viewport, used, budget);
    if idx >= nodes.len() || used_again >= budget_again {
    } else {
        assert(used < budget);
        let step = expand_node(nodes[idx], file, camera, viewport, used, budget);
        let next = nodes.update(idx, step.0);
        lemma_expand_only_adds(next, idx + 1, file, camera, viewport, step.1, budget);
        lemma_expand_node_settles(nodes[idx], file, camera, viewport, used, budget, used_again, budget_again);
        lemma_expand_settles(next, idx + 1, file, camera, viewport, step.1, budget, used_again, budget_again);
        assert(out[idx] == step.0);
        assert(out.update(idx, step.0) =~= out);
    }
}

/// Fixed point: a call of `expand_visible` that makes fewer expansions than
/// its budget leaves a tree that a further call with the same size tree,
/// camera and viewport does not change, whatever its budget.
pub proof fn lemma_expand_reaches_fixed_point(
    nodes: Seq<NodeView>,
    file: FileNode,
    camera: Camera,
    viewport: Rect,
    budget: int,
    budget_again: int,
)
    requires
        expand_from(nodes, 0, file, camera, viewport, 0, budget).1 < budget,
    ensures
        ({
            let out = expand_from(nodes, 0, file, camera, viewport, 0, budget).0;
            expand_from(out, 0, file, camera, viewport, 0, budget_again) == (out, 0int)
        }),
{
    lemma_expand_settles(nodes, 0, file, camera, viewport, 0, budget, 0, budget_again);
}

/// Number of nodes of a size tree.
pub open spec fn tree_size(file: FileNode) -> nat
    decreases file, 1int, 0int,
{
    1 + trees_size(file, 0)
}

/// Number of nodes of the size trees of the children of `file` from position
/// `from` on.
pub open spec fn trees_size(file: FileNode, from: int) -> nat
    decreases file, 0int, file.children@.len() - from,
{
    if from < 0 || from >= file.children@.len() {
        0
    } else {
        tree_size(file.children@[from]) + trees_size(file, from + 1)
    }
}

/// A bound on the expansions that can still be made at and below a node whose
/// file is a child of `file`: none where it has no file; the size of its
/// file's tree while it is not expanded; the bound for its children once it
/// is.
pub open spec fn node_potential(node: NodeView, file: FileNode) -> nat
    decreases node, 1int, 0int,
{
    if node.child_index >= file.children@.len() {
        0
    } else if node.children_expanded {
        potential(node.children, 0, file.children@[node.child_index as int])
    } else {
        tree_size(file.children@[node.child_index as int])
    }
}

/// A bound on the expansions that can still be made at and below the nodes
/// from position `from` on.
pub open spec fn potential(nodes: Seq<NodeView>, from: int, file: FileNode) -> nat
    decreases nodes, 0int, nodes.len() - from,
{
    if from < 0 || from >= nodes.len() {
        0
    } else {
        node_potential(nodes[from], file) + potential(nodes, from + 1, file)
    }
}

/// The potential from a position on depends only on the nodes from there on.
pub proof fn lemma_potential_tail(a: Seq<NodeView>, b: Seq<NodeView>, from: int, file: FileNode)
    requires
        a.len() == b.len(),
        0 <= from,
        forall|j: int| from <= j < a.len() ==> a[j] == b[j],
    ensures
        potential(a, from, file) == potential(b, from, file),
    decreases a.len() - from,
{
    if from < a.len() {
        lemma_potential_tail(a, b, from + 1, file);
    }
}

/// Freshly laid out children have at most the potential of the trees of the
/// files they stand for.
pub proof fn lemma_fresh_potential(file: FileNode, parent_rect: Rect, depth: usize, from: int)
    requires
        0 <= from,
    ensures
        potential(laid_out(file, parent_rect, depth), from, file) <= trees_size(file, from),
    decreases file.children@.len() - from,
{
    let nodes = laid_out(file, parent_rect, depth);
    let tiles = layout_spec(
        parent_rect.min.x as int,
        parent_rect.min.y as int,
        parent_rect.spec_width() as int,
        parent_rect.spec_height() as int,
        file.child_sizes(),
    );
    assert(nodes.len() == tiles.len());
    if tiles.len() > 0 {
        lemma_layout_keeps_order(
            parent_rect.min.x as int,
            parent_rect.min.y as int,
            parent_rect.spec_width() as int,
            parent_rect.spec_height() as int,
            file.child_sizes(),
        );
        assert(tiles.len() == file.children@.len());
        if from < nodes.len() {
            lemma_fresh_potential(file, parent_rect, depth, from + 1);
            assert(tiles[from].index == from);
            assert(file.children@.len() == file.children.len());
            assert(nodes[from] == fresh_node(file.children@[from], tiles[from], depth));
            assert(nodes[from].child_index == from);
            assert(node_potential(nodes[from], file) == tree_size(file.children@[from]));
        }
    }
}

/// Expanding a node uses up potential: what it leaves, plus the expansions it
/// made, is at most what it found.
pub proof fn lemma_expand_node_uses_potential(node: NodeView, file: FileNode, camera: Camera, viewport: Rect, used: int, budget: int)
    ensures
        ({
            let out = expand_node(node, file, camera, viewport, used, budget);
            node_potential(out.0, file) + (out.1 - used) <= node_potential(node, file)
        }),
    decreases file, 0int, 0int,
{
    let out = expand_node(node, file, camera, viewport, used, budget);
    if !visible(camera, node, viewport) || node.child_index >= file.children@.len() {
    } else if out.0.children_expanded {
        let child_file = file.children@[node.child_index as int];
        if !node.children_expanded {
            let content = spec_content_rect(node.world_rect, node.depth);
            let depth = spec_next_depth(node.depth);
            lemma_fresh_potential(child_file, content, depth, 0);
            lemma_expand_uses_potential(laid_out(child_file, content, depth), 0, child_file, camera, viewport, used + 1, budget);
        } else {
            lemma_expand_uses_potential(node.children, 0, child_file, camera, viewport, used, budget);
        }
    }
}

/// Every expansion uses up potential: what a call leaves from `idx` on, plus
/// the expansions it made, is at most what it found.
pub proof fn lemma_expand_uses_potential(
    nodes: Seq<NodeView>,
    idx: int,
    file: FileNode,
    camera: Camera,
    viewport: Rect,
    used: int,
    budget: int,
)
    requires
        0 <= idx,
    ensures
        ({
            let out = expand_from(nodes, idx, file, camera, viewport, used, budget);
            potential(out.0, idx, file) + (out.1 - used) <= potential(nodes, idx, file)
        }),
    decreases file, 1int, nodes.len() - idx,
{
    let out = expand_from(nodes, idx, file, camera, viewport, used, budget);
    if idx >= nodes.len() || used >= budget {
    } else {
        let step = expand_node(nodes[idx], file, camera, viewport, used, budget);
        let next = nodes.update(idx, step.0);
        lemma_expand_node_uses_potential(nodes[idx], file, camera, viewport, used, budget);
        lemma_expand_uses_potential(next, idx + 1, file, camera, viewport, step.1, budget);
        lemma_expand_only_adds(next, idx + 1, file, camera, viewport, step.1, budget);
        lemma_potential_tail(next, nodes, idx + 1, file);
        assert(out.0[idx] == step.0);
    }
}

/// The nodes after `times` calls of `expand_visible` in a row, each with the
/// same size tree, camera, viewport and budget.
pub open spec fn expanded_times(
    nodes: Seq<NodeView>,
    file: FileNode,
    camera: Camera,
    viewport: Rect,
    budget: int,
    times: nat,
) -> Seq<NodeView>
    decreases times,
{
    if times == 0 {
        nodes
    } else {
        expanded_times(
            expand_from(nodes, 0, file, camera, viewport, 0, budget).0,
            file,
            camera,
            viewport,
            budget,
            (times - 1) as nat,
        )
    }
}

/// Nodes that one call leaves unchanged stay unchanged however often it is
/// repeated.
pub proof fn lemma_fixed_point_stays(
    nodes: Seq<NodeView>,
    file: FileNode,
    camera: Camera,
    viewport: Rect,
    budget: int,
    times: nat,
)
    requires
        expand_from(nodes, 0, file, camera, viewport, 0, budget).0 == nodes,
    ensures
        expanded_times(nodes, file, camera, viewport, budget, times) == nodes,
    decreases times,
{
    if times > 0 {
        lemma_fixed_point_stays(nodes, file, camera, viewport, budget, (times - 1) as nat);
    }
}

/// Lazy tree idempotence: with a budget of at least one, an unchanged camera
/// and viewport, repeated calls of `expand_visible` reach a fixed point. After
/// more calls than the potential of the tree they started from, one more call
/// changes nothing.
pub proof fn lemma_expand_eventually_stops(
    nodes: Seq<NodeView>,
    file: FileNode,
    camera: Camera,
    viewport: Rect,
    budget: int,
    times: nat,
)
    requires
        1 <= budget,
        times > potential(nodes, 0, file),
    ensures
        expanded_times(nodes, file, camera, viewport, budget, times + 1) == expanded_times(
            nodes,
            file,
            camera,
            viewport,
            budget,
            times,
        ),
    decreases times,
{
    let first = expand_from(nodes, 0, file, camera, viewport, 0, budget);
    lemma_expand_only_adds(nodes, 0, file, camera, viewport, 0, budget);
    lemma_expand_uses_potential(nodes, 0, file, camera, viewport, 0, budget);
    if first.1 < budget {
        lemma_expand_settles(nodes, 0, file, camera, viewport, 0, budget, 0, budget);
        lemma_fixed_point_stays(first.0, file, camera, viewport, budget, times);
        lemma_fixed_point_stays(first.0, file, camera, viewport, budget, (times - 1) as nat);
    } else {
        lemma_expand_eventually_stops(first.0, file, camera, viewport, budget, (times - 1) as nat);
    }
}

/// Whatever is visible and large enough to be expanded is also large enough
/// to keep its children: the expansion threshold lies above the prune floor.
pub proof fn lemma_expanding_implies_keeping(node: NodeView, camera: Camera, viewport: Rect)
    requires
        visible(camera, node, viewport),
        screen_rect(camera, node, viewport).spec_short_side() > EXPAND_THRESHOLD,
    ensures
        keeps_children(camera, node, viewport),
{
}

/// Hysteresis: an expanded node that touches the viewport and whose size on
/// screen lies between the prune floor and the expansion threshold keeps its
/// children, as many as before, when pruned at the same camera position.
pub proof fn lemma_prune_keeps_expanded(node: NodeView, camera: Camera, viewport: Rect)
    requires
        node.children_expanded,
        screen_rect(camera, node, viewport).spec_intersects(viewport),
        PRUNE_FLOOR <= screen_rect(camera, node, viewport).spec_short_side() <= EXPAND_THRESHOLD,
    ensures
        pruned(node, camera, viewport).children_expanded,
        pruned(node, camera, viewport).children.len() == node.children.len(),
        pruned(node, camera, viewport).world_rect == node.world_rect,
{
}

/// Pruning only drops: a pruned node is what it was, with children dropped at
/// or below it, and it is consistent if it was.
pub proof fn lemma_prune_only_drops(node: NodeView, camera: Camera, viewport: Rect)
    ensures
        cut_back_from(node, pruned(node, camera, viewport)),
        consistent(node) ==> consistent(pruned(node, camera, viewport)),
    decreases node,
{
    let after = pruned(node, camera, viewport);
    if node.children_expanded && keeps_children(camera, node, viewport) {
        assert forall|i: int| 0 <= i < node.children.len() implies cut_back_from(#[trigger] node.children[i], after.children[i])
            && (consistent(node.children[i]) ==> consistent(after.children[i])) by {
            lemma_prune_only_drops(node.children[i], camera, viewport);
        }
        if consistent(node) {
            assert forall|i: int| 0 <= i < after.children.len() implies consistent(#[trigger] after.children[i]) by {
                assert(consistent(node.children[i]));
            }
        }
    }
}

/// Pruning a list of nodes only drops, and keeps consistent nodes consistent.
pub proof fn lemma_prune_all_only_drops(nodes: Seq<NodeView>, camera: Camera, viewport: Rect)
    ensures
        pruned_all(nodes, camera, viewport).len() == nodes.len(),
        forall|i: int| 0 <= i < nodes.len() ==> cut_back_from(#[trigger] nodes[i], pruned_all(nodes, camera, viewport)[i]),
        all_consistent(nodes) ==> all_consistent(pruned_all(nodes, camera, viewport)),
{
    let out = pruned_all(nodes, camera, viewport);
    assert forall|i: int| 0 <= i < nodes.len() implies cut_back_from(#[trigger] nodes[i], out[i]) && (consistent(nodes[i])
        ==> consistent(out[i])) by {
        lemma_prune_only_drops(nodes[i], camera, viewport);
    }
    if all_consistent(nodes) {
        assert forall|i: int| 0 <= i < out.len() implies consistent(#[trigger] out[i]) by {
            assert(consistent(nodes[i]));
        }
    }
}


/// Whether rectangle `inner` lies inside rectangle `outer`.
pub open spec fn inside(inner: Rect, outer: Rect) -> bool {
    &&& outer.min.x <= inner.min.x <= inner.max.x <= outer.max.x
    &&& outer.min.y <= inner.min.y <= inner.max.y <= outer.max.y
}

/// Laid out nodes lie inside the rectangle they were laid out in.
pub proof fn lemma_laid_out_inside(file: FileNode, parent_rect: Rect, depth: usize)
    ensures
        forall|i: int| 0 <= i < laid_out(file, parent_rect, depth).len() ==> inside(
            (#[trigger] laid_out(file, parent_rect, depth)[i]).world_rect,
            parent_rect,
        ),
{
    let nodes = laid_out(file, parent_rect, depth);
    let x = parent_rect.min.x as int;
    let y = parent_rect.min.y as int;
    let w = parent_rect.spec_width() as int;
    let h = parent_rect.spec_height() as int;
    let tiles = layout_spec(x, y, w, h, file.child_sizes());
    if tiles.len() > 0 {
        lemma_layout_tiles(x, y, w, h, file.child_sizes());
        assert forall|i: int| 0 <= i < nodes.len() implies inside((#[trigger] nodes[i]).world_rect, parent_rect) by {
            assert(within(tiles[i], x, y, w, h));
        }
    }
}

/// The content rectangle of a directory whose rectangle is not inverted lies
/// inside that rectangle, or is itself inverted, and begins below the header
/// band.
pub proof fn lemma_content_inside(dir_rect: Rect, depth: usize)
    requires
        dir_rect.min.x <= dir_rect.max.x,
        dir_rect.min.y <= dir_rect.max.y,
    ensures
        ({
            let content = spec_content_rect(dir_rect, depth);
            &&& dir_rect.min.x <= content.min.x
            &&& content.max.x <= dir_rect.max.x
            &&& dir_rect.min.y <= content.min.y
            &&& content.max.y <= dir_rect.max.y
            &&& content.min.y - dir_rect.min.y == mul_sat(dir_rect.spec_height(), spec_header_fraction(depth)) || content.min.y
                == i64::MAX
        }),
{
    lemma_mul_sat_nonneg(dir_rect.spec_height(), spec_header_fraction(depth));
    lemma_mul_sat_nonneg(PAD_FRACTION, dir_rect.spec_short_side());
}

/// Children keep clear of the label: the children that expansion gives a
/// directory lie inside its content rectangle, so inside the directory's
/// rectangle and below its header band.
pub proof fn lemma_children_inside_content(node: NodeView, file: FileNode, camera: Camera, viewport: Rect, used: int, budget: int)
    requires
        !node.children_expanded,
        expand_node(node, file, camera, viewport, used, budget).0.children_expanded,
    ensures
        ({
            let out = expand_node(node, file, camera, viewport, used, budget).0;
            let content = spec_content_rect(node.world_rect, node.depth);
            forall|i: int| 0 <= i < out.children.len() ==> inside((#[trigger] out.children[i]).world_rect, content)
        }),
{
    let out = expand_node(node, file, camera, viewport, used, budget).0;
    let child_file = file.children@[node.child_index as int];
    let content = spec_content_rect(node.world_rect, node.depth);
    let depth = spec_next_depth(node.depth);
    let fresh = laid_out(child_file, content, depth);
    lemma_laid_out_inside(child_file, content, depth);
    lemma_expand_only_adds(fresh, 0, child_file, camera, viewport, used + 1, budget);
    assert forall|i: int| 0 <= i < out.children.len() implies inside((#[trigger] out.children[i]).world_rect, content) by {
        assert(grown_from(fresh[i], out.children[i]));
        assert(inside(fresh[i].world_rect, content));
    }
}

/// Every entry of an ancestor chain is a rectangle that contains the point.
pub proof fn lemma_chain_contains_point(nodes: Seq<NodeView>, idx: int, pos: Point)
    ensures
        forall|k: int| 0 <= k < chain_from(nodes, idx, pos).len() ==> (#[trigger] chain_from(nodes, idx, pos)[k]).2.spec_contains(pos),
    decreases nodes, nodes.len() - idx,
{
    let chain = chain_from(nodes, idx, pos);
    if idx < 0 || idx >= nodes.len() {
    } else if !nodes[idx].world_rect.spec_contains(pos) {
        lemma_chain_contains_point(nodes, idx + 1, pos);
        let rest = chain_from(nodes, idx + 1, pos);
        assert(chain == rest);
        assert forall|k: int| 0 <= k < chain.len() implies (#[trigger] chain[k]).2.spec_contains(pos) by {
            assert(rest[k].2.spec_contains(pos));
        }
    } else {
        let node = nodes[idx];
        let entry: ChainEntry = (node.name, node.color_index, node.world_rect);
        if node.children_expanded {
            lemma_chain_contains_point(node.children, 0, pos);
            let below = chain_from(node.children, 0, pos);
            assert(chain == seq![entry] + below);
            assert forall|k: int| 0 <= k < chain.len() implies (#[trigger] chain[k]).2.spec_contains(pos) by {
                if k > 0 {
                    assert(chain[k] == below[k - 1]);
                } else {
                    assert(chain[0] == entry);
                }
            }
        } else {
            assert(chain == seq![entry]);
            assert forall|k: int| 0 <= k < chain.len() implies (#[trigger] chain[k]).2.spec_contains(pos) by {
                assert(chain[0] == entry);
            }
        }
    }
}

} // verus!
