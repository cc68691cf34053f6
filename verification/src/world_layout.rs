//! Lazy layout tree in world space.
//!
//! The tree mirrors the size tree, but only as far as the view needs it: the
//! first level is laid out when the tree is built, and a directory's children
//! are laid out when the directory becomes large enough on screen and dropped
//! again when it has shrunk or left the screen. A node's rectangle is fixed
//! when the node is made; only its children come and go.

use vstd::prelude::*;
use crate::fixed::{ONE, add_sat, sub_sat, mul_sat, fx_add, fx_sub, fx_mul};
use crate::geometry::{Point, Offset, Rect};
use crate::camera::Camera;
use crate::scanner::FileNode;
use crate::treemap::{Tile, TreemapRect, layout, layout_spec, tiles_of};
use crate::treemap_laws::lemma_layout_keeps_order;
use crate::world_layout_laws::{lemma_expand_only_adds, lemma_fresh_consistent, lemma_prune_all_only_drops};

verus! {

/// Share of a directory's height kept free for its header (0.01).
pub const HEADER_FRACTION: i64 = 42949672;

/// Padding around a directory's children, as a share of its shorter side (0.002).
pub const PAD_FRACTION: i64 = 8589934;

/// Nodes smaller than this on screen (2 pixels) are passed over.
pub const VISIBLE_FLOOR: i64 = 8589934592;

/// A directory larger than this on screen (80 pixels) gets its children.
pub const EXPAND_THRESHOLD: i64 = 343597383680;

/// A directory smaller than this on screen (20 pixels) loses its children.
pub const PRUNE_FLOOR: i64 = 85899345920;

/// Pruning runs on every call of `maybe_prune` whose number is a multiple of this.
pub const PRUNE_INTERVAL: u64 = 60;

/// Number of colours that depths cycle through.
pub const PALETTE_SIZE: usize = 8;

/// A node of the world-space layout tree. It stands for one node of the size
/// tree and has a fixed rectangle in world space.
#[derive(Debug)]
pub struct LayoutNode {
    pub world_rect: Rect,
    pub depth: usize,
    pub name: String,
    pub size: u64,
    pub is_dir: bool,
    pub has_children: bool,
    pub color_index: usize,
    /// Position of the node's file among the children of its parent's file.
    pub child_index: usize,
    pub children_expanded: bool,
    pub children: Vec<LayoutNode>,
}

/// The mathematical value of a layout node.
pub ghost struct NodeView {
    pub world_rect: Rect,
    pub depth: usize,
    pub name: Seq<char>,
    pub size: u64,
    pub is_dir: bool,
    pub has_children: bool,
    pub color_index: usize,
    pub child_index: usize,
    pub children_expanded: bool,
    pub children: Seq<NodeView>,
}

/// The value of a layout node: its fields, with the values of its children.
pub open spec fn node_view(node: LayoutNode) -> NodeView
    decreases node,
{
    NodeView {
        world_rect: node.world_rect,
        depth: node.depth,
        name: node.name@,
        size: node.size,
        is_dir: node.is_dir,
        has_children: node.has_children,
        color_index: node.color_index,
        child_index: node.child_index,
        children_expanded: node.children_expanded,
        children: Seq::new(
            node.children@.len(),
            |i: int|
                if 0 <= i < node.children@.len() {
                    node_view(node.children@[i])
                } else {
                    arbitrary()
                },
        ),
    }
}

impl View for LayoutNode {
    type V = NodeView;

    open spec fn view(&self) -> NodeView {
        node_view(*self)
    }
}

/// Whether a node and all below it are consistent: a node that is not
/// expanded holds no children.
pub open spec fn consistent(node: NodeView) -> bool
    decreases node,
{
    &&& !node.children_expanded ==> node.children.len() == 0
    &&& forall|i: int| 0 <= i < node.children.len() ==> consistent(#[trigger] node.children[i])
}

/// Whether all of the nodes are consistent.
pub open spec fn all_consistent(nodes: Seq<NodeView>) -> bool {
    forall|i: int| 0 <= i < nodes.len() ==> consistent(#[trigger] nodes[i])
}

/// The values of a list of layout nodes.
pub open spec fn views(nodes: Seq<LayoutNode>) -> Seq<NodeView> {
    Seq::new(nodes.len(), |i: int| nodes[i]@)
}

/// The top-level world-space layout.
#[derive(Debug)]
pub struct WorldLayout {
    pub root_nodes: Vec<LayoutNode>,
    pub world_rect: Rect,
    /// Calls of `maybe_prune` since the last pruning.
    pub frame_counter: u64,
}

/// Share of a directory's height that its header takes at a given depth.
pub open spec fn spec_header_fraction(depth: usize) -> i64 {
    HEADER_FRACTION
}

#[verifier::when_used_as_spec(spec_header_fraction)]
fn header_fraction(depth: usize) -> (f: i64)
    ensures
        f == spec_header_fraction(depth),
{
    HEADER_FRACTION
}

/// The part of a directory's rectangle that its children are laid out in.
pub open spec fn spec_content_rect(dir_rect: Rect, depth: usize) -> Rect {
    let hh = mul_sat(dir_rect.spec_height(), spec_header_fraction(depth));
    let pad = mul_sat(PAD_FRACTION, dir_rect.spec_short_side());
    Rect {
        min: Point { x: add_sat(dir_rect.min.x, pad), y: add_sat(dir_rect.min.y, hh) },
        max: Point { x: sub_sat(dir_rect.max.x, pad), y: sub_sat(dir_rect.max.y, pad) },
    }
}

/// The content rectangle inside a directory's rectangle: below a header band
/// and inside a small padding.
#[verifier::when_used_as_spec(spec_content_rect)]
pub fn content_rect(dir_rect: Rect, depth: usize) -> (r: Rect)
    ensures
        r == spec_content_rect(dir_rect, depth),
{
    let hh: i64 = fx_mul(dir_rect.height(), header_fraction(depth));
    let pad: i64 = fx_mul(PAD_FRACTION, dir_rect.short_side());
    Rect::from_min_max(
        Point { x: fx_add(dir_rect.min.x, pad), y: fx_add(dir_rect.min.y, hh) },
        Point { x: fx_sub(dir_rect.max.x, pad), y: fx_sub(dir_rect.max.y, pad) },
    )
}

/// The depth one level below `depth`.
pub open spec fn spec_next_depth(depth: usize) -> usize {
    if depth < usize::MAX {
        (depth + 1) as usize
    } else {
        depth
    }
}

#[verifier::when_used_as_spec(spec_next_depth)]
fn next_depth(depth: usize) -> (d: usize)
    ensures
        d == spec_next_depth(depth),
{
    if depth < usize::MAX {
        depth + 1
    } else {
        depth
    }
}

/// The world rectangle of a tile.
pub open spec fn tile_rect(tile: Tile) -> Rect {
    Rect::spec_from_min_size(
        Point { x: tile.x as i64, y: tile.y as i64 },
        Offset { x: tile.w as i64, y: tile.h as i64 },
    )
}

/// The fresh, unexpanded node for a file laid out on `tile` at `depth`.
pub open spec fn fresh_node(file: FileNode, tile: Tile, depth: usize) -> NodeView {
    NodeView {
        world_rect: tile_rect(tile),
        depth,
        name: file.name@,
        size: file.size,
        is_dir: file.is_dir,
        has_children: file.has_children(),
        color_index: (depth % PALETTE_SIZE) as usize,
        child_index: tile.index as usize,
        children_expanded: false,
        children: Seq::empty(),
    }
}

/// The nodes of the children of `file`, laid out as a treemap in
/// `parent_rect`.
pub open spec fn laid_out(file: FileNode, parent_rect: Rect, depth: usize) -> Seq<NodeView> {
    let tiles = layout_spec(
        parent_rect.min.x as int,
        parent_rect.min.y as int,
        parent_rect.spec_width() as int,
        parent_rect.spec_height() as int,
        file.child_sizes(),
    );
    Seq::new(tiles.len(), |i: int| fresh_node(file.children@[tiles[i].index], tiles[i], depth))
}

/// The node's rectangle on screen.
pub open spec fn screen_rect(camera: Camera, node: NodeView, viewport: Rect) -> Rect {
    camera.spec_world_to_screen(node.world_rect, viewport)
}

/// Whether a node is looked at when expanding: it touches the viewport and is
/// not tiny.
pub open spec fn visible(camera: Camera, node: NodeView, viewport: Rect) -> bool {
    &&& screen_rect(camera, node, viewport).spec_intersects(viewport)
    &&& screen_rect(camera, node, viewport).spec_short_side() >= VISIBLE_FLOOR
}

/// Whether a visible node is to get its children: an unexpanded directory with
/// children that is large enough on screen.
pub open spec fn wants_children(camera: Camera, node: NodeView, viewport: Rect) -> bool {
    &&& node.is_dir
    &&& node.has_children
    &&& !node.children_expanded
    &&& screen_rect(camera, node, viewport).spec_short_side() > EXPAND_THRESHOLD
}

/// Whether an expanded node keeps its children when pruning: it touches the
/// viewport and is not small.
pub open spec fn keeps_children(camera: Camera, node: NodeView, viewport: Rect) -> bool {
    &&& screen_rect(camera, node, viewport).spec_intersects(viewport)
    &&& screen_rect(camera, node, viewport).spec_short_side() >= PRUNE_FLOOR
}

/// A node after expansion, with the number of expansions made so far. `file`
/// is the node of the size tree whose children the node and its siblings
/// stand for. A node that is not visible, or whose file is missing, stays as
/// it is. A visible node that wants children gets them laid out in its content
/// rectangle, which counts as one expansion; and the children of an expanded
/// node, old or new, are expanded in turn.
pub open spec fn expand_node(
    node: NodeView,
    file: FileNode,
    camera: Camera,
    viewport: Rect,
    used: int,
    budget: int,
) -> (NodeView, int)
    decreases file, 0int, 0int,
{
    if !visible(camera, node, viewport) || node.child_index >= file.children@.len() {
        (node, used)
    } else {
        let child_file = file.children@[node.child_index as int];
        let grow = wants_children(camera, node, viewport);
        let grown = if grow {
            NodeView {
                children: laid_out(child_file, spec_content_rect(node.world_rect, node.depth), spec_next_depth(node.depth)),
                children_expanded: true,
                ..node
            }
        } else {
            node
        };
        let used1 = if grow { used + 1 } else { used };
        if grown.children_expanded {
            let below = expand_from(grown.children, 0, child_file, camera, viewport, used1, budget);
            (NodeView { children: below.0, ..grown }, below.1)
        } else {
            (grown, used1)
        }
    }
}

/// The nodes after expansion from position `idx` on, with the number of
/// expansions made so far. Nodes are visited in order, each before its
/// children; once `used` reaches `budget` nothing more changes.
pub open spec fn expand_from(
    nodes: Seq<NodeView>,
    idx: int,
    file: FileNode,
    camera: Camera,
    viewport: Rect,
    used: int,
    budget: int,
) -> (Seq<NodeView>, int)
    decreases file, 1int, nodes.len() - idx,
{
    if idx < 0 || idx >= nodes.len() || used >= budget {
        (nodes, used)
    } else {
        let step = expand_node(nodes[idx], file, camera, viewport, used, budget);
        expand_from(nodes.update(idx, step.0), idx + 1, file, camera, viewport, step.1, budget)
    }
}

/// A node after pruning: an expanded node that has left the screen or become
/// small loses its children; otherwise its children are pruned in turn.
pub open spec fn pruned(node: NodeView, camera: Camera, viewport: Rect) -> NodeView
    decreases node,
{
    if !node.children_expanded {
        node
    } else if !keeps_children(camera, node, viewport) {
        NodeView { children: Seq::empty(), children_expanded: false, ..node }
    } else {
        NodeView {
            children: Seq::new(
                node.children.len(),
                |i: int|
                    if 0 <= i < node.children.len() {
                        pruned(node.children[i], camera, viewport)
                    } else {
                        arbitrary()
                    },
            ),
            ..node
        }
    }
}

/// A list of nodes after pruning each.
pub open spec fn pruned_all(nodes: Seq<NodeView>, camera: Camera, viewport: Rect) -> Seq<NodeView> {
    Seq::new(nodes.len(), |i: int| pruned(nodes[i], camera, viewport))
}

/// One entry of an ancestor chain: name, colour index and world rectangle.
pub type ChainEntry = (Seq<char>, usize, Rect);

/// The chain of nodes that contain `pos`, from the first node at or after
/// `idx` that contains it down through expanded children.
pub open spec fn chain_from(nodes: Seq<NodeView>, idx: int, pos: Point) -> Seq<ChainEntry>
    decreases nodes, nodes.len() - idx,
{
    if idx < 0 || idx >= nodes.len() {
        Seq::empty()
    } else if !nodes[idx].world_rect.spec_contains(pos) {
        chain_from(nodes, idx + 1, pos)
    } else {
        let node = nodes[idx];
        let entry: ChainEntry = (node.name, node.color_index, node.world_rect);
        if node.children_expanded {
            seq![entry] + chain_from(node.children, 0, pos)
        } else {
            seq![entry]
        }
    }
}


/// Replacing a node replaces its value.
proof fn lemma_views_update(nodes: Seq<LayoutNode>, i: int, node: LayoutNode)
    requires
        0 <= i < nodes.len(),
    ensures
        views(nodes.update(i, node)) == views(nodes).update(i, node@),
{
    assert(views(nodes.update(i, node)) =~= views(nodes).update(i, node@));
}

/// The value of a node holds the values of its children.
pub proof fn lemma_view_children(node: LayoutNode)
    ensures
        node@.children == views(node.children@),
{
    assert(node@.children =~= views(node.children@));
}

/// Lays the children of `file_node` out into `parent_rect` as a squarified
/// treemap, one unexpanded node per child that gets a rectangle.
fn layout_children(file_node: &FileNode, parent_rect: Rect, depth: usize) -> (nodes: Vec<LayoutNode>)
    ensures
        views(nodes@) == laid_out(*file_node, parent_rect, depth),
{
    let count: usize = file_node.children.len();
    let mut sizes: Vec<u64> = Vec::with_capacity(count);
    let mut k: usize = 0;
    while k < count
        invariant
            k <= count,
            count == file_node.children@.len(),
            sizes@.len() == k,
            forall|j: int| 0 <= j < k ==> sizes@[j] == file_node.children@[j].size,
        decreases count - k,
    {
        sizes.push(file_node.children[k].size);
        k = k + 1;
    }
    assert(sizes@ =~= file_node.child_sizes());
    let rects: Vec<TreemapRect> = layout(
        parent_rect.min.x,
        parent_rect.min.y,
        parent_rect.width(),
        parent_rect.height(),
        sizes.as_slice(),
    );
    let ghost tiles = layout_spec(
        parent_rect.min.x as int,
        parent_rect.min.y as int,
        parent_rect.spec_width() as int,
        parent_rect.spec_height() as int,
        file_node.child_sizes(),
    );
    proof {
        assert(tiles_of(rects@) == tiles);
        if tiles.len() > 0 {
            lemma_layout_keeps_order(
                parent_rect.min.x as int,
                parent_rect.min.y as int,
                parent_rect.spec_width() as int,
                parent_rect.spec_height() as int,
                file_node.child_sizes(),
            );
        }
    }
    let color_index: usize = depth % PALETTE_SIZE;
    let mut nodes: Vec<LayoutNode> = Vec::with_capacity(rects.len());
    let mut i: usize = 0;
    while i < rects.len()
        invariant
            i <= rects.len(),
            tiles_of(rects@) == tiles,
            tiles.len() > 0 ==> tiles.len() == file_node.children@.len(),
            forall|j: int| 0 <= j < tiles.len() ==> (#[trigger] tiles[j]).index == j,
            color_index == depth % PALETTE_SIZE,
            nodes@.len() == i,
            forall|j: int| 0 <= j < i ==> (#[trigger] nodes@[j])@ == fresh_node(file_node.children@[tiles[j].index], tiles[j], depth),
        decreases rects.len() - i,
    {
        let tr: TreemapRect = rects[i];
        assert(tiles[i as int] == tr@);
        let child: &FileNode = &file_node.children[tr.index];
        let world_rect: Rect = Rect::from_min_size(Point { x: tr.x, y: tr.y }, Offset { x: tr.w, y: tr.h });
        let has_children: bool = child.is_dir && child.children.len() > 0;
        let node: LayoutNode = LayoutNode {
            world_rect,
            depth,
            name: child.name.clone(),
            size: child.size,
            is_dir: child.is_dir,
            has_children,
            color_index,
            child_index: tr.index,
            children_expanded: false,
            children: Vec::new(),
        };
        proof {
            lemma_view_children(node);
            assert(node@.children =~= Seq::<NodeView>::empty());
            assert(node@ == fresh_node(*child, tiles[i as int], depth));
        }
        nodes.push(node);
        i = i + 1;
    }
    assert(views(nodes@) =~= laid_out(*file_node, parent_rect, depth));
    nodes
}

/// Expands, among the nodes from `file_node`'s children, the directories that
/// are visible and large enough on screen, and goes on into expanded children,
/// until `max_expansions` is reached.
fn expand_recursive(
    nodes: &mut Vec<LayoutNode>,
    file_node: &FileNode,
    camera: &Camera,
    viewport: Rect,
    expansions: &mut usize,
    max_expansions: usize,
)
    ensures
        (views(final(nodes)@), *final(expansions) as int) == expand_from(
            views(old(nodes)@),
            0,
            *file_node,
            *camera,
            viewport,
            *old(expansions) as int,
            max_expansions as int,
        ),
    decreases file_node,
{
    let ghost goal = expand_from(
        views(nodes@),
        0,
        *file_node,
        *camera,
        viewport,
        *expansions as int,
        max_expansions as int,
    );
    let mut i: usize = 0;
    while i < nodes.len()
        invariant
            i <= nodes.len(),
            expand_from(views(nodes@), i as int, *file_node, *camera, viewport, *expansions as int, max_expansions as int)
                == goal,
            goal == expand_from(
                views(old(nodes)@),
                0,
                *file_node,
                *camera,
                viewport,
                *old(expansions) as int,
                max_expansions as int,
            ),
        decreases nodes.len() - i,
    {
        if *expansions >= max_expansions {
            return ;
        }
        let ghost before = views(nodes@);
        let ghost step = expand_node(
            before[i as int],
            *file_node,
            *camera,
            viewport,
            *expansions as int,
            max_expansions as int,
        );
        assert(before.update(i as int, before[i as int]) =~= before);
        assert(expand_from(before, i as int, *file_node, *camera, viewport, *expansions as int, max_expansions as int)
            == expand_from(
            before.update(i as int, step.0),
            i + 1,
            *file_node,
            *camera,
            viewport,
            step.1,
            max_expansions as int,
        ));
        let screen: Rect = camera.world_to_screen(nodes[i].world_rect, viewport);
        if !screen.intersects(viewport) {
            i = i + 1;
            continue ;
        }
        let screen_size: i64 = screen.short_side();
        if screen_size < VISIBLE_FLOOR {
            i = i + 1;
            continue ;
        }
        if nodes[i].child_index >= file_node.children.len() {
            i = i + 1;
            continue ;
        }
        let ghost prior = nodes@;
        let node: &mut LayoutNode = &mut nodes[i];
        let child_file: &FileNode = &file_node.children[node.child_index];
        if node.is_dir && node.has_children && !node.children_expanded && screen_size > EXPAND_THRESHOLD {
            let cr: Rect = content_rect(node.world_rect, node.depth);
            node.children = layout_children_at_depth(child_file, cr, next_depth(node.depth));
            node.children_expanded = true;
            *expansions = *expansions + 1;
        }
        proof {
            lemma_view_children(*node);
        }
        let ghost grown = node@;
        if node.children_expanded {
            expand_recursive(&mut node.children, child_file, camera, viewport, expansions, max_expansions);
        }
        proof {
            lemma_view_children(*node);
            lemma_views_update(prior, i as int, *node);
            assert(node@ == (NodeView { children: node@.children, ..grown }));
            assert(node@ == step.0);
        }
        i = i + 1;
    }
}

/// Lays out the children of a directory that is being expanded.
fn layout_children_at_depth(file_node: &FileNode, parent_rect: Rect, depth: usize) -> (nodes: Vec<LayoutNode>)
    ensures
        views(nodes@) == laid_out(*file_node, parent_rect, depth),
{
    layout_children(file_node, parent_rect, depth)
}


/// Drops the children of the expanded nodes that have left the screen or
/// become small, and goes on into the children of the others.
fn prune_recursive(nodes: &mut Vec<LayoutNode>, camera: &Camera, viewport: Rect)
    ensures
        views(final(nodes)@) == pruned_all(views(old(nodes)@), *camera, viewport),
    decreases *old(nodes),
{
    let ghost initial = views(nodes@);
    let mut i: usize = 0;
    while i < nodes.len()
        invariant
            i <= nodes.len(),
            nodes.len() == old(nodes).len(),
            initial == views(old(nodes)@),
            forall|j: int| 0 <= j < i ==> (#[trigger] nodes@[j])@ == pruned(initial[j], *camera, viewport),
            forall|j: int| i <= j < nodes.len() ==> #[trigger] nodes@[j] == old(nodes)@[j],
        decreases nodes.len() - i,
    {
        if !nodes[i].children_expanded {
            i = i + 1;
            continue ;
        }
        let screen: Rect = camera.world_to_screen(nodes[i].world_rect, viewport);
        let node: &mut LayoutNode = &mut nodes[i];
        let ghost start = node@;
        proof {
            lemma_view_children(*node);
        }
        if !screen.intersects(viewport) || screen.short_side() < PRUNE_FLOOR {
            node.children.clear();
            node.children_expanded = false;
            proof {
                lemma_view_children(*node);
                assert(node@.children =~= Seq::<NodeView>::empty());
            }
        } else {
            prune_recursive(&mut node.children, camera, viewport);
            proof {
                lemma_view_children(*node);
                assert(node@.children =~= pruned(start, *camera, viewport).children);
            }
        }
        assert(node@ == pruned(start, *camera, viewport));
        i = i + 1;
    }
    assert(views(nodes@) =~= pruned_all(initial, *camera, viewport));
}

/// Appends to `chain` the nodes that contain `pos`: the first of `nodes` from
/// `from` on that does, then the same among its children while they are
/// expanded.
fn ancestor_chain_recursive<'a>(nodes: &'a Vec<LayoutNode>, pos: Point, chain: &mut Vec<(&'a str, usize, Rect)>)
    ensures
        chain_views(final(chain)@) == chain_views(old(chain)@) + chain_from(views(nodes@), 0, pos),
    decreases nodes,
{
    let mut i: usize = 0;
    while i < nodes.len()
        invariant
            i <= nodes.len(),
            chain@ == old(chain)@,
            chain_from(views(nodes@), i as int, pos) == chain_from(views(nodes@), 0, pos),
        decreases nodes.len() - i,
    {
        let node: &'a LayoutNode = &nodes[i];
        if !node.world_rect.contains(pos) {
            i = i + 1;
            continue ;
        }
        let name: &'a str = node.name.as_str();
        proof {
            lemma_view_children(*node);
            let entry: ChainEntry = (node.name@, node.color_index, node.world_rect);
            assert(chain_views(chain@.push((name, node.color_index, node.world_rect))) =~= chain_views(chain@) + seq![entry]);
        }
        chain.push((name, node.color_index, node.world_rect));
        if node.children_expanded {
            ancestor_chain_recursive(&node.children, pos, chain);
            assert(chain_views(chain@) =~= chain_views(old(chain)@) + chain_from(views(nodes@), 0, pos));
        }
        return ;
    }
    assert(chain_views(chain@) =~= chain_views(old(chain)@) + Seq::<ChainEntry>::empty());
}

/// The values of the entries of an ancestor chain.
pub open spec fn chain_views(chain: Seq<(&str, usize, Rect)>) -> Seq<ChainEntry> {
    Seq::new(chain.len(), |i: int| (chain[i].0@, chain[i].1, chain[i].2))
}

impl WorldLayout {
    /// Whether the nodes of the layout are consistent: only expanded nodes
    /// hold children.
    pub open spec fn well_formed(&self) -> bool {
        all_consistent(views(self.root_nodes@))
    }

    /// The world rectangle of a layout with the given aspect ratio: one unit
    /// wide, `aspect_ratio` high.
    pub open spec fn world_rect_for(aspect_ratio: i64) -> Rect {
        Rect { min: Point { x: 0, y: 0 }, max: Point { x: ONE, y: aspect_ratio } }
    }

    /// Creates the layout of a scanned tree: the root's children laid out in
    /// the world rectangle from `(0, 0)` to `(1.0, aspect_ratio)`, none of
    /// them expanded.
    pub fn new(file_root: &FileNode, aspect_ratio: i64) -> (world: WorldLayout)
        ensures
            world.world_rect == Self::world_rect_for(aspect_ratio),
            views(world.root_nodes@) == laid_out(*file_root, Self::world_rect_for(aspect_ratio), 0),
            world.frame_counter == 0,
            world.well_formed(),
    {
        let world_rect: Rect = Rect::from_min_max(Point { x: 0, y: 0 }, Point { x: ONE, y: aspect_ratio });
        let root_nodes: Vec<LayoutNode> = layout_children(file_root, world_rect, 0);
        proof {
            lemma_fresh_consistent(*file_root, world_rect, 0);
        }
        WorldLayout { root_nodes, world_rect, frame_counter: 0 }
    }

    /// Expands the directories that are large enough on screen but have no
    /// children yet, at most `max_expansions` of them in one call. Nodes are
    /// visited in order, a node before its children, and the children of an
    /// expanded directory in the same call.
    pub fn expand_visible(&mut self, file_root: &FileNode, camera: &Camera, viewport: Rect, max_expansions: usize)
        ensures
            views(final(self).root_nodes@) == expand_from(
                views(old(self).root_nodes@),
                0,
                *file_root,
                *camera,
                viewport,
                0,
                max_expansions as int,
            ).0,
            final(self).world_rect == old(self).world_rect,
            final(self).frame_counter == old(self).frame_counter,
            old(self).well_formed() ==> final(self).well_formed(),
    {
        proof {
            lemma_expand_only_adds(views(self.root_nodes@), 0, *file_root, *camera, viewport, 0, max_expansions as int);
        }
        let mut expansions: usize = 0;
        expand_recursive(&mut self.root_nodes, file_root, camera, viewport, &mut expansions, max_expansions);
    }

    /// Whether the call of `maybe_prune` that finds this counter prunes.
    pub open spec fn prune_due(self) -> bool {
        self.frame_counter >= PRUNE_INTERVAL - 1
    }

    /// Frees the children of nodes that are off screen or small, on every
    /// call whose number is a multiple of `PRUNE_INTERVAL`; the calls between
    /// only count.
    pub fn maybe_prune(&mut self, camera: &Camera, viewport: Rect)
        ensures
            final(self).world_rect == old(self).world_rect,
            old(self).prune_due() ==> final(self).frame_counter == 0 && views(final(self).root_nodes@) == pruned_all(
                views(old(self).root_nodes@),
                *camera,
                viewport,
            ),
            !old(self).prune_due() ==> final(self).frame_counter == old(self).frame_counter + 1 && final(self).root_nodes
                == old(self).root_nodes,
            old(self).well_formed() ==> final(self).well_formed(),
    {
        proof {
            lemma_prune_all_only_drops(views(self.root_nodes@), *camera, viewport);
        }
        if self.frame_counter < PRUNE_INTERVAL - 1 {
            self.frame_counter = self.frame_counter + 1;
            return ;
        }
        self.frame_counter = 0;
        prune_recursive(&mut self.root_nodes, camera, viewport);
    }

    /// The chain of nodes from a root node down to the deepest materialised
    /// node that contains `world_pos`, as name, colour index and world
    /// rectangle of each.
    pub fn ancestor_chain(&self, world_pos: Point) -> (chain: Vec<(&str, usize, Rect)>)
        ensures
            chain_views(chain@) == chain_from(views(self.root_nodes@), 0, world_pos),
    {
        let mut chain: Vec<(&str, usize, Rect)> = Vec::new();
        ancestor_chain_recursive(&self.root_nodes, world_pos, &mut chain);
        assert(chain_views(Seq::<(&str, usize, Rect)>::empty()) + chain_from(views(self.root_nodes@), 0, world_pos)
            =~= chain_from(views(self.root_nodes@), 0, world_pos));
        chain
    }
}

} // verus!
