//! Finding the node under a screen position.
//!
//! Children are placed on screen the way they are drawn: inside their
//! parent's screen rectangle, below a header of fixed height and inside a
//! border and padding of fixed width, by the same treemap layout. The deepest
//! node that contains the position is the hit.

use vstd::prelude::*;
use crate::fixed::{add_sat, sub_sat, min_of, fx_add, fx_sub, fx_min};
use crate::geometry::{Point, Offset, Rect};
use crate::camera::Camera;
use crate::treemap::{Tile, TreemapRect, layout, layout_spec, tiles_of};
use crate::treemap_laws::lemma_layout_keeps_order;
use crate::world_layout::{LayoutNode, NodeView, views, tile_rect, lemma_view_children};

verus! {

/// Nodes narrower or lower than this on screen (2 pixels) are not drawn.
pub const MIN_SCREEN_PX: i64 = 8589934592;

/// Height of a directory's header on screen (16 pixels).
pub const HEADER_PX: i64 = 68719476736;

/// Padding between a directory's border and its children (3 pixels).
pub const PAD_PX: i64 = 12884901888;

/// Width of a directory's border (1.5 pixels).
pub const BORDER_PX: i64 = 6442450944;

/// What is known of the node under the pointer.
#[derive(Clone, Debug)]
pub struct HoveredInfo {
    pub name: String,
    pub size: u64,
    pub is_dir: bool,
    pub world_rect: Rect,
    pub has_children: bool,
    pub screen_rect: Rect,
}

/// The mathematical value of a `HoveredInfo`.
pub ghost struct Hit {
    pub name: Seq<char>,
    pub size: u64,
    pub is_dir: bool,
    pub world_rect: Rect,
    pub has_children: bool,
    pub screen_rect: Rect,
}

impl View for HoveredInfo {
    type V = Hit;

    open spec fn view(&self) -> Hit {
        Hit {
            name: self.name@,
            size: self.size,
            is_dir: self.is_dir,
            world_rect: self.world_rect,
            has_children: self.has_children,
            screen_rect: self.screen_rect,
        }
    }
}

/// The part of a directory's screen rectangle that its children are drawn in.
pub open spec fn spec_screen_content(screen_rect: Rect) -> Rect {
    let inner = screen_rect.spec_shrink(BORDER_PX);
    let hh = min_of(HEADER_PX, inner.spec_height());
    Rect {
        min: Point { x: add_sat(inner.min.x, PAD_PX), y: add_sat(inner.min.y, hh) },
        max: Point { x: sub_sat(inner.max.x, PAD_PX), y: sub_sat(inner.max.y, PAD_PX) },
    }
}

/// The part of a directory's screen rectangle that its children are drawn in:
/// inside the border, below the header, inside the padding.
#[verifier::when_used_as_spec(spec_screen_content)]
pub fn screen_content(screen_rect: Rect) -> (content: Rect)
    ensures
        content == spec_screen_content(screen_rect),
{
    let inner: Rect = screen_rect.shrink(BORDER_PX);
    let hh: i64 = fx_min(HEADER_PX, inner.height());
    Rect::from_min_max(
        Point { x: fx_add(inner.min.x, PAD_PX), y: fx_add(inner.min.y, hh) },
        Point { x: fx_sub(inner.max.x, PAD_PX), y: fx_sub(inner.max.y, PAD_PX) },
    )
}

/// Whether the children of a node are drawn inside `screen_rect`: the node is
/// an expanded directory with children and the content area is large enough.
pub open spec fn shows_children(node: NodeView, screen_rect: Rect) -> bool {
    &&& node.is_dir
    &&& node.has_children
    &&& node.children_expanded
    &&& node.children.len() > 0
    &&& spec_screen_content(screen_rect).spec_width() > MIN_SCREEN_PX
    &&& spec_screen_content(screen_rect).spec_height() > MIN_SCREEN_PX
}

/// The sizes of the children of a node.
pub open spec fn child_sizes(node: NodeView) -> Seq<u64> {
    Seq::new(node.children.len(), |i: int| node.children[i].size)
}

/// The tiles of the children of a node drawn inside `screen_rect`.
pub open spec fn child_tiles(node: NodeView, screen_rect: Rect) -> Seq<Tile> {
    let content = spec_screen_content(screen_rect);
    layout_spec(
        content.min.x as int,
        content.min.y as int,
        content.spec_width() as int,
        content.spec_height() as int,
        child_sizes(node),
    )
}

/// What a hit on this node reports.
pub open spec fn hit_on(node: NodeView, screen_rect: Rect) -> Hit {
    Hit {
        name: node.name,
        size: node.size,
        is_dir: node.is_dir,
        world_rect: node.world_rect,
        has_children: node.has_children,
        screen_rect,
    }
}

/// The hit at `pos` inside a node drawn at `screen_rect`: none where the node
/// does not contain the position or is too small to be drawn; otherwise the
/// hit in the first child that has one, or else the node itself.
pub open spec fn hit(node: NodeView, screen_rect: Rect, pos: Point) -> Option<Hit>
    decreases node, 1int, 0int,
{
    if !screen_rect.spec_contains(pos) {
        None
    } else if screen_rect.spec_width() < MIN_SCREEN_PX || screen_rect.spec_height() < MIN_SCREEN_PX {
        None
    } else if shows_children(node, screen_rect) && spec_screen_content(screen_rect).spec_contains(pos) {
        match hit_among(node, child_tiles(node, screen_rect), 0, pos) {
            Some(deeper) => Some(deeper),
            None => Some(hit_on(node, screen_rect)),
        }
    } else {
        Some(hit_on(node, screen_rect))
    }
}

/// The hit in the first of the children placed on `tiles[from..]` that has
/// one.
pub open spec fn hit_among(node: NodeView, tiles: Seq<Tile>, from: int, pos: Point) -> Option<Hit>
    decreases node, 0int, tiles.len() - from,
{
    if from < 0 || from >= tiles.len() {
        None
    } else if 0 <= tiles[from].index < node.children.len() {
        match hit(node.children[tiles[from].index], tile_rect(tiles[from]), pos) {
            Some(deeper) => Some(deeper),
            None => hit_among(node, tiles, from + 1, pos),
        }
    } else {
        hit_among(node, tiles, from + 1, pos)
    }
}

/// The screen rectangles of the children of a node that is drawn at
/// `screen_rect`, each with the position of its child; none where the children
/// are not drawn.
pub fn child_screen_rects(node: &LayoutNode, screen_rect: Rect) -> (rects: Vec<TreemapRect>)
    ensures
        shows_children(node@, screen_rect) ==> tiles_of(rects@) == child_tiles(node@, screen_rect),
        !shows_children(node@, screen_rect) ==> rects@.len() == 0,
        forall|i: int| 0 <= i < rects@.len() ==> (#[trigger] rects@[i]).index == i,
        rects@.len() == 0 || rects@.len() == node.children@.len(),
{
    proof {
        lemma_view_children(*node);
    }
    if !(node.is_dir && node.has_children && node.children_expanded && node.children.len() > 0) {
        return Vec::new();
    }
    let content: Rect = screen_content(screen_rect);
    if !(content.width() > MIN_SCREEN_PX && content.height() > MIN_SCREEN_PX) {
        return Vec::new();
    }
    let count: usize = node.children.len();
    let mut sizes: Vec<u64> = Vec::with_capacity(count);
    let mut k: usize = 0;
    while k < count
        invariant
            k <= count,
            count == node.children@.len(),
            sizes@.len() == k,
            forall|j: int| 0 <= j < k ==> sizes@[j] == node.children@[j].size,
        decreases count - k,
    {
        sizes.push(node.children[k].size);
        k = k + 1;
    }
    assert(sizes@ =~= child_sizes(node@));
    let rects: Vec<TreemapRect> = layout(content.min.x, content.min.y, content.width(), content.height(), sizes.as_slice());
    proof {
        assert(tiles_of(rects@).len() == rects@.len());
        if rects@.len() > 0 {
            lemma_layout_keeps_order(
                content.min.x as int,
                content.min.y as int,
                content.spec_width() as int,
                content.spec_height() as int,
                child_sizes(node@),
            );
            assert forall|i: int| 0 <= i < rects@.len() implies (#[trigger] rects@[i]).index == i by {
                assert(tiles_of(rects@)[i] == rects@[i]@);
            }
        }
    }
    rects
}

/// Recursive screen-space hit test for a single node drawn at `screen_rect`.
pub fn hit_test_node(node: &LayoutNode, screen_rect: Rect, viewport: Rect, pos: Point) -> (found: Option<HoveredInfo>)
    ensures
        found is Some <==> hit(node@, screen_rect, pos) is Some,
        found is Some ==> found->0@ == hit(node@, screen_rect, pos)->0,
    decreases node,
{
    if !screen_rect.contains(pos) {
        return None;
    }
    if screen_rect.width() < MIN_SCREEN_PX || screen_rect.height() < MIN_SCREEN_PX {
        return None;
    }
    // Children first: the deeper node is the more specific one.
    let rects: Vec<TreemapRect> = child_screen_rects(node, screen_rect);
    if screen_content(screen_rect).contains(pos) {
        let ghost tiles = child_tiles(node@, screen_rect);
        let mut i: usize = 0;
        while i < rects.len()
            invariant
                i <= rects.len(),
                rects@.len() == 0 || rects@.len() == node.children@.len(),
                forall|j: int| 0 <= j < rects@.len() ==> (#[trigger] rects@[j]).index == j,
                rects@.len() > 0 ==> shows_children(node@, screen_rect) && tiles_of(rects@) == tiles,
                rects@.len() > 0 ==> hit_among(node@, tiles, i as int, pos) == hit_among(node@, tiles, 0, pos),
                tiles == child_tiles(node@, screen_rect),
                screen_rect.spec_contains(pos),
                screen_rect.spec_width() >= MIN_SCREEN_PX,
                screen_rect.spec_height() >= MIN_SCREEN_PX,
                spec_screen_content(screen_rect).spec_contains(pos),
            decreases rects.len() - i,
        {
            let tr: TreemapRect = rects[i];
            let child_rect: Rect = Rect::from_min_size(Point { x: tr.x, y: tr.y }, Offset { x: tr.w, y: tr.h });
            proof {
                lemma_view_children(*node);
                assert(tiles[i as int] == tr@);
                assert(node@.children[tr.index as int] == node.children@[tr.index as int]@);
            }
            let deeper: Option<HoveredInfo> = hit_test_node(&node.children[tr.index], child_rect, viewport, pos);
            if deeper.is_some() {
                return deeper;
            }
            i = i + 1;
        }
    }
    Some(
        HoveredInfo {
            name: node.name.clone(),
            size: node.size,
            is_dir: node.is_dir,
            world_rect: node.world_rect,
            has_children: node.has_children,
            screen_rect,
        },
    )
}

/// The hit at `pos` in the first of `nodes[from..]` that has one, each node
/// drawn where the camera projects its world rectangle.
pub open spec fn first_hit(nodes: Seq<NodeView>, from: int, camera: Camera, viewport: Rect, pos: Point) -> Option<Hit>
    decreases nodes.len() - from,
{
    if from < 0 || from >= nodes.len() {
        None
    } else {
        match hit(nodes[from], camera.spec_world_to_screen(nodes[from].world_rect, viewport), pos) {
            Some(found) => Some(found),
            None => first_hit(nodes, from + 1, camera, viewport, pos),
        }
    }
}

/// The node under a screen position: the deepest drawn node that contains
/// it, searched through the root nodes in order.
pub fn screen_hit_test(nodes: &Vec<LayoutNode>, camera: &Camera, viewport: Rect, screen_pos: Point) -> (found: Option<HoveredInfo>)
    ensures
        found is Some <==> first_hit(views(nodes@), 0, *camera, viewport, screen_pos) is Some,
        found is Some ==> found->0@ == first_hit(views(nodes@), 0, *camera, viewport, screen_pos)->0,
{
    let mut i: usize = 0;
    while i < nodes.len()
        invariant
            i <= nodes.len(),
            first_hit(views(nodes@), i as int, *camera, viewport, screen_pos) == first_hit(
                views(nodes@),
                0,
                *camera,
                viewport,
                screen_pos,
            ),
        decreases nodes.len() - i,
    {
        let screen_rect: Rect = camera.world_to_screen(nodes[i].world_rect, viewport);
        let found: Option<HoveredInfo> = hit_test_node(&nodes[i], screen_rect, viewport, screen_pos);
        if found.is_some() {
            return found;
        }
        i = i + 1;
    }
    None
}

} // verus!
