//! The pane tree: an arena of panes connected by right/down sibling links,
//! with the operations that split, remove, resize and traverse them.
//!
//! The arena is index-addressed and insertion-ordered; indices are reused
//! positions, not stable identities — removal compacts every index above the
//! removed position down by one. The structural root is the node with no
//! incoming link; it is found by scanning, never assumed to sit at a fixed
//! position.

use vstd::prelude::*;

use crate::geometry::built;
use crate::geometry::clamp_margin;
use crate::geometry::clamp_px;
use crate::geometry::div_trunc;
use crate::geometry::div_trunc_i64;
use crate::geometry::lemma_mul_bound;
use crate::geometry::margin_clamped;
use crate::geometry::margin_ok;
use crate::geometry::px_clamped;
use crate::geometry::ContextDimension;
use crate::geometry::Delta;
use crate::geometry::SugarDimensions;
use crate::geometry::PADDING;
use crate::geometry::PX_LIMIT;
use crate::geometry::SCALE_LIMIT;
use crate::objects::Object;
use crate::objects::Position;
use crate::objects::Rect;
use crate::objects::RichText;
use crate::objects::Rgba;
use crate::objects::Size;

verus! {

/// One pane: the identity of its content (a rich-text handle and a route)
/// and its computed geometry. The content engine itself lives outside the
/// layout; the layout only records which content fills the pane.
#[derive(Clone, Copy, Debug)]
pub struct Context {
    pub route_id: usize,
    pub rich_text_id: usize,
    pub dimension: ContextDimension,
}

impl Context {
    pub fn new(route_id: usize, rich_text_id: usize, dimension: ContextDimension) -> (r: Context)
        ensures
            r == (Context { route_id, rich_text_id, dimension }),
    {
        Context { route_id, rich_text_id, dimension }
    }
}

/// A pointer position in window-space pixel coordinates.
#[derive(Clone, Copy, Debug)]
pub struct Mouse {
    pub x: usize,
    pub y: usize,
}

impl Default for Mouse {
    fn default() -> (r: Mouse)
        ensures
            r == (Mouse { x: 0usize, y: 0usize }),
    {
        Mouse { x: 0, y: 0 }
    }
}

/// One arena node: a pane plus the indices of the sibling to its right and
/// of the sibling below it, if any.
#[derive(Clone, Copy, Debug)]
pub struct ContextGridItem {
    pub val: Context,
    pub right: Option<usize>,
    pub down: Option<usize>,
}

impl ContextGridItem {
    pub fn new(context: Context) -> (r: Self)
        ensures
            r == (ContextGridItem { val: context, right: None::<usize>, down: None::<usize> }),
    {
        Self { val: context, right: None, down: None }
    }

    /// The pane this node holds.
    pub fn context(&self) -> (r: &Context)
        ensures
            r == &self.val,
    {
        &self.val
    }

    /// Mutable access to the pane this node holds.
    pub fn context_mut(&mut self) -> (r: &mut Context)
        ensures
            *r == old(self).val,
            *final(self) == (ContextGridItem { val: *final(r), ..*old(self) }),
    {
        &mut self.val
    }
}

/// There is a link from node `i` to node `j`.
pub open spec fn is_edge(items: Seq<ContextGridItem>, i: int, j: int) -> bool {
    &&& 0 <= i < items.len()
    &&& {
        ||| (items[i].right is Some && items[i].right->0 as int == j)
        ||| (items[i].down is Some && items[i].down->0 as int == j)
    }
}

/// Some node links to node `j`.
pub open spec fn has_parent(items: Seq<ContextGridItem>, j: int) -> bool {
    exists|i: int| is_edge(items, i, j)
}

/// Every link lands inside the arena.
pub open spec fn links_ok(items: Seq<ContextGridItem>) -> bool {
    forall|i: int|
        #![trigger items[i]]
        0 <= i < items.len() ==> {
            &&& (items[i].right is Some ==> items[i].right->0 < items.len())
            &&& (items[i].down is Some ==> items[i].down->0 < items.len())
        }
}

/// Every pane's geometry is within range and derived from its inputs.
pub open spec fn items_wf(items: Seq<ContextGridItem>) -> bool {
    forall|i: int|
        #![trigger items[i]]
        0 <= i < items.len() ==> {
            &&& items[i].val.dimension.wf()
            &&& items[i].val.dimension.consistent()
        }
}

/// No node uses one index as both its right and its down child.
pub open spec fn no_dup_children(items: Seq<ContextGridItem>) -> bool {
    forall|i: int|
        #![trigger items[i]]
        0 <= i < items.len() ==> (items[i].right is Some && items[i].down is Some
            ==> items[i].right->0 != items[i].down->0)
}

/// Every node has at most one parent: two links landing on the same index
/// come from the same node.
pub open spec fn single_parent(items: Seq<ContextGridItem>) -> bool {
    forall|i1: int, i2: int, j: int|
        #[trigger] is_edge(items, i1, j) && #[trigger] is_edge(items, i2, j) ==> i1 == i2
}

/// `rank` is a topological numbering of the arena: a permutation of
/// `[0, len)` that strictly increases along every right/down link. Its
/// existence rules out cycles and bounds every link chain by the arena
/// length, which is what makes the recursive traversals terminate.
pub open spec fn rank_ok(items: Seq<ContextGridItem>, rank: Seq<int>) -> bool {
    &&& rank.len() == items.len()
    &&& forall|i: int| 0 <= i < rank.len() ==> 0 <= #[trigger] rank[i] < rank.len()
    &&& forall|i: int, j: int|
        0 <= i < rank.len() && 0 <= j < rank.len() && i != j ==> #[trigger] rank[i] != #[trigger] rank[j]
    &&& forall|i: int|
        #![trigger items[i]]
        0 <= i < items.len() ==> {
            &&& (items[i].right is Some ==> rank[i] < rank[items[i].right->0 as int])
            &&& (items[i].down is Some ==> rank[i] < rank[items[i].down->0 as int])
        }
}

/// The labeled region of one pane at a given accumulated offset.
pub open spec fn region_obj(item: ContextGridItem, margin: Delta<i64>) -> Object {
    Object::RichText(
        RichText {
            id: item.val.rich_text_id,
            position: Position { x: margin.x, y: margin.top_y },
        },
    )
}

/// The offset at which the subtree right of `item` starts: the current
/// offset moved right by the separator gap plus the pane's width in
/// unscaled pixels, clamped into the coordinate range.
pub open spec fn right_child_margin(item: ContextGridItem, margin: Delta<i64>) -> Delta<i64> {
    Delta {
        x: px_clamped(
            margin.x + PADDING + div_trunc(
                item.val.dimension.width as int,
                item.val.dimension.dimension.scale as int,
            ),
        ) as i64,
        top_y: margin.top_y,
        bottom_y: margin.bottom_y,
    }
}

/// The offset at which the subtree below `item` starts.
pub open spec fn down_child_margin(item: ContextGridItem, margin: Delta<i64>) -> Delta<i64> {
    Delta {
        x: margin.x,
        top_y: px_clamped(
            margin.top_y + PADDING + div_trunc(
                item.val.dimension.height as int,
                item.val.dimension.dimension.scale as int,
            ),
        ) as i64,
        bottom_y: margin.bottom_y,
    }
}

/// The separator drawn between `item` and its right sibling: a thin
/// vertical bar spanning the pane's height, one gap left of the sibling.
pub open spec fn right_separator(
    item: ContextGridItem,
    new_margin: Delta<i64>,
    border: Rgba,
) -> Object {
    Object::Rect(
        Rect {
            position: Position { x: (new_margin.x - PADDING) as i64, y: new_margin.top_y },
            color: border,
            size: Size {
                width: div_trunc(2, item.val.dimension.dimension.scale as int) as i64,
                height: item.val.dimension.height,
            },
        },
    )
}

/// The separator drawn between `item` and its down sibling: a thin
/// horizontal bar spanning the pane's width, one gap above the sibling.
pub open spec fn down_separator(
    item: ContextGridItem,
    new_margin: Delta<i64>,
    border: Rgba,
) -> Object {
    Object::Rect(
        Rect {
            position: Position { x: new_margin.x, y: (new_margin.top_y - PADDING) as i64 },
            color: border,
            size: Size {
                width: item.val.dimension.width,
                height: div_trunc(2, item.val.dimension.dimension.scale as int) as i64,
            },
        },
    )
}

/// The region list of the subtree rooted at `index`, in canonical order:
/// the node's own region, then the separator and regions of the right
/// subtree, then the separator and regions of the down subtree. The fuel
/// bounds the recursion; any fuel at least as large as the longest link
/// chain from `index` yields the same list.
pub open spec fn plot_spec(
    items: Seq<ContextGridItem>,
    index: int,
    margin: Delta<i64>,
    border: Rgba,
    fuel: nat,
) -> Seq<Object>
    decreases fuel,
{
    if fuel == 0 || index < 0 || index >= items.len() {
        Seq::empty()
    } else {
        let item = items[index];
        let head = seq![region_obj(item, margin)];
        let right_part = if item.right is Some {
            let nm = right_child_margin(item, margin);
            seq![right_separator(item, nm, border)] + plot_spec(
                items,
                item.right->0 as int,
                nm,
                border,
                (fuel - 1) as nat,
            )
        } else {
            Seq::empty()
        };
        let down_part = if item.down is Some {
            let nm = down_child_margin(item, margin);
            seq![down_separator(item, nm, border)] + plot_spec(
                items,
                item.down->0 as int,
                nm,
                border,
                (fuel - 1) as nat,
            )
        } else {
            Seq::empty()
        };
        head + right_part + down_part
    }
}

/// Any two fuels that cover the longest link chain from `index` (which the
/// topological numbering bounds by `len - rank[index]`) give the same
/// region list.
pub proof fn lemma_plot_fuel(
    items: Seq<ContextGridItem>,
    rank: Seq<int>,
    index: int,
    margin: Delta<i64>,
    border: Rgba,
    f1: nat,
    f2: nat,
)
    requires
        rank_ok(items, rank),
        links_ok(items),
        0 <= index < items.len() ==> f1 >= items.len() - rank[index],
        0 <= index < items.len() ==> f2 >= items.len() - rank[index],
    ensures
        plot_spec(items, index, margin, border, f1) == plot_spec(items, index, margin, border, f2),
    decreases f1,
{
    if 0 <= index < items.len() {
        let item = items[index];
        if item.right is Some {
            let r = item.right->0 as int;
            let nm = right_child_margin(item, margin);
            lemma_plot_fuel(items, rank, r, nm, border, (f1 - 1) as nat, (f2 - 1) as nat);
        }
        if item.down is Some {
            let d = item.down->0 as int;
            let nm = down_child_margin(item, margin);
            lemma_plot_fuel(items, rank, d, nm, border, (f1 - 1) as nat, (f2 - 1) as nat);
        }
    }
}

/// The first arena index with no incoming link, scanning from `k`; the
/// conventional answer is 0 when every position from `k` on has a parent.
pub open spec fn first_root_from(items: Seq<ContextGridItem>, k: int) -> int
    decreases items.len() - k,
{
    if k < 0 || k >= items.len() {
        0
    } else if !has_parent(items, k) {
        k
    } else {
        first_root_from(items, k + 1)
    }
}

/// The structural root: the first arena index with no incoming link.
pub open spec fn first_root(items: Seq<ContextGridItem>) -> int {
    first_root_from(items, 0)
}

/// The arena after a right split at `cur`: the pane at `cur` keeps the left
/// half of its width less the separator gap; a new pane holding `c` is
/// appended with the other half and the unchanged height, inheriting `cur`'s
/// old right link; `cur`'s right link points at the new pane.
pub open spec fn split_right_items(
    items: Seq<ContextGridItem>,
    cur: int,
    c: Context,
) -> Seq<ContextGridItem> {
    let n = items.len();
    let old_item = items[cur];
    let new_w = div_trunc(old_item.val.dimension.width as int, 2);
    let cur_updated = ContextGridItem {
        val: Context {
            dimension: built(
                new_w - PADDING,
                old_item.val.dimension.height as int,
                old_item.val.dimension.dimension,
                1,
                old_item.val.dimension.margin,
            ),
            ..old_item.val
        },
        right: Some(n as usize),
        down: old_item.down,
    };
    let new_item = ContextGridItem {
        val: Context {
            dimension: built(
                new_w,
                old_item.val.dimension.height as int,
                c.dimension.dimension,
                1,
                c.dimension.margin,
            ),
            ..c
        },
        right: old_item.right,
        down: None,
    };
    items.update(cur, cur_updated).push(new_item)
}

/// The arena after a down split at `cur`, the vertical mirror image of
/// `split_right_items`.
pub open spec fn split_down_items(
    items: Seq<ContextGridItem>,
    cur: int,
    c: Context,
) -> Seq<ContextGridItem> {
    let n = items.len();
    let old_item = items[cur];
    let new_h = div_trunc(old_item.val.dimension.height as int, 2);
    let cur_updated = ContextGridItem {
        val: Context {
            dimension: built(
                old_item.val.dimension.width as int,
                new_h - PADDING,
                old_item.val.dimension.dimension,
                1,
                old_item.val.dimension.margin,
            ),
            ..old_item.val
        },
        right: old_item.right,
        down: Some(n as usize),
    };
    let new_item = ContextGridItem {
        val: Context {
            dimension: built(
                old_item.val.dimension.width as int,
                new_h,
                c.dimension.dimension,
                1,
                c.dimension.margin,
            ),
            ..c
        },
        right: None,
        down: old_item.down,
    };
    items.update(cur, cur_updated).push(new_item)
}

/// The topological numbering that witnesses acyclicity after a split:
/// numbers above the split node's shift up by one, and the appended node
/// takes the place just above its parent.
pub open spec fn split_rank(rank: Seq<int>, cur: int) -> Seq<int> {
    rank.map_values(|v: int| if v > rank[cur] { v + 1 } else { v }).push(rank[cur] + 1)
}

/// A split preserves the acyclicity witness: the new node sits between its
/// parent and whatever chain the parent handed over.
pub proof fn lemma_rank_split(
    items_old: Seq<ContextGridItem>,
    rank_old: Seq<int>,
    items_new: Seq<ContextGridItem>,
    cur: int,
)
    requires
        rank_ok(items_old, rank_old),
        links_ok(items_old),
        no_dup_children(items_old),
        single_parent(items_old),
        0 <= cur < items_old.len(),
        items_new.len() == items_old.len() + 1,
        forall|i: int|
            #![trigger items_new[i]]
            0 <= i < items_old.len() && i != cur ==> items_new[i].right == items_old[i].right
                && items_new[i].down == items_old[i].down,
        ({
            let n = items_old.len() as int;
            ||| {
                &&& items_new[cur].right is Some
                &&& items_new[cur].right->0 as int == n
                &&& items_new[cur].down == items_old[cur].down
                &&& items_new[n].right == items_old[cur].right
                &&& items_new[n].down is None
            }
            ||| {
                &&& items_new[cur].down is Some
                &&& items_new[cur].down->0 as int == n
                &&& items_new[cur].right == items_old[cur].right
                &&& items_new[n].down == items_old[cur].down
                &&& items_new[n].right is None
            }
        }),
    ensures
        rank_ok(items_new, split_rank(rank_old, cur)),
        links_ok(items_new),
        no_dup_children(items_new),
        single_parent(items_new),
{
    let n = items_old.len() as int;
    let rc = rank_old[cur];
    let rank_new = split_rank(rank_old, cur);
    assert forall|i: int, j: int|
        0 <= i < rank_new.len() && 0 <= j < rank_new.len() && i != j implies #[trigger] rank_new[i]
        != #[trigger] rank_new[j] by {
        if i < n && j < n {
            assert(rank_old[i] != rank_old[j]);
        }
    }
    assert forall|i: int|
        #![trigger items_new[i]]
        0 <= i < items_new.len() implies {
        &&& (items_new[i].right is Some ==> items_new[i].right->0 < items_new.len()
            && rank_new[i] < rank_new[items_new[i].right->0 as int])
        &&& (items_new[i].down is Some ==> items_new[i].down->0 < items_new.len()
            && rank_new[i] < rank_new[items_new[i].down->0 as int])
    } by {
        if i < n {
            assert(items_old[i].right is Some ==> items_old[i].right->0 < items_old.len());
            assert(items_old[i].down is Some ==> items_old[i].down->0 < items_old.len());
        }
    }
    assert forall|i1: int, i2: int, j: int|
        #[trigger] is_edge(items_new, i1, j) && #[trigger] is_edge(items_new, i2, j) implies i1
        == i2 by {
        lemma_split_edge_source(items_old, items_new, cur, i1, j);
        lemma_split_edge_source(items_old, items_new, cur, i2, j);
        if j == n {
            // only `cur` links to the appended node
        } else if i1 != i2 {
            // trace both edges back to old edges on the same target
            let o1: int = if i1 == n { cur } else { i1 };
            let o2: int = if i2 == n { cur } else { i2 };
            assert(is_edge(items_old, o1, j));
            assert(is_edge(items_old, o2, j));
            assert(o1 == o2);
            assert(false);
        }
    }
}

/// After a split, every edge of the new arena that does not land on the
/// appended node corresponds to an old edge (with the appended node
/// standing in for the split node's handed-over link), and only the split
/// node links to the appended node.
proof fn lemma_split_edge_source(
    items_old: Seq<ContextGridItem>,
    items_new: Seq<ContextGridItem>,
    cur: int,
    i: int,
    j: int,
)
    requires
        links_ok(items_old),
        no_dup_children(items_old),
        0 <= cur < items_old.len(),
        items_new.len() == items_old.len() + 1,
        forall|m: int|
            #![trigger items_new[m]]
            0 <= m < items_old.len() && m != cur ==> items_new[m].right == items_old[m].right
                && items_new[m].down == items_old[m].down,
        ({
            let n = items_old.len() as int;
            ||| {
                &&& items_new[cur].right is Some
                &&& items_new[cur].right->0 as int == n
                &&& items_new[cur].down == items_old[cur].down
                &&& items_new[n].right == items_old[cur].right
                &&& items_new[n].down is None
            }
            ||| {
                &&& items_new[cur].down is Some
                &&& items_new[cur].down->0 as int == n
                &&& items_new[cur].right == items_old[cur].right
                &&& items_new[n].down == items_old[cur].down
                &&& items_new[n].right is None
            }
        }),
        is_edge(items_new, i, j),
    ensures
        j == items_old.len() as int ==> i == cur,
        j != items_old.len() as int ==> is_edge(items_old, (if i == items_old.len() as int { cur } else { i }), j),
{
    let n = items_old.len() as int;
    if i < n && i != cur {
        assert(is_edge(items_old, i, j));
        assert(items_old[i].right is Some ==> items_old[i].right->0 < items_old.len());
        assert(items_old[i].down is Some ==> items_old[i].down->0 < items_old.len());
    }
}

/// The first node at or after `k` whose right or down link is `c`, with a
/// flag saying whether it was the right link (the right link is examined
/// first at each node).
pub open spec fn parent_scan(items: Seq<ContextGridItem>, c: int, k: int) -> Option<(bool, usize)>
    decreases items.len() - k,
{
    if k < 0 || k >= items.len() {
        None
    } else if items[k].right is Some && items[k].right->0 as int == c {
        Some((true, k as usize))
    } else if items[k].down is Some && items[k].down->0 as int == c {
        Some((false, k as usize))
    } else {
        parent_scan(items, c, k + 1)
    }
}

/// What a parent scan's answer means: a hit names a real link onto `c`, and
/// a miss means no node from `k` on links to `c`.
pub proof fn lemma_parent_scan(items: Seq<ContextGridItem>, c: int, k: int)
    requires
        0 <= k,
        items.len() <= usize::MAX,
    ensures
        parent_scan(items, c, k) matches Some((is_right, p)) ==> {
            &&& k <= p < items.len()
            &&& (is_right ==> items[p as int].right is Some && items[p as int].right->0 as int
                == c)
            &&& (!is_right ==> items[p as int].down is Some && items[p as int].down->0 as int == c)
            &&& is_edge(items, p as int, c)
        },
        parent_scan(items, c, k) is None ==> forall|i: int| k <= i < items.len()
            ==> !is_edge(items, i, c),
    decreases items.len() - k,
{
    if 0 <= k < items.len() {
        lemma_parent_scan(items, c, k + 1);
    }
}

/// A link after the compaction that removes position `r`: indices above `r`
/// shift down by one.
pub open spec fn compact_link(l: Option<usize>, r: int) -> Option<usize> {
    match l {
        Some(v) => if v > r {
            Some((v - 1) as usize)
        } else {
            Some(v)
        },
        None => None,
    }
}

/// The arena after node `r` is deleted: every stored link above `r` is
/// decremented by one, then the node itself is removed and everything above
/// it shifts down.
pub open spec fn compacted(items: Seq<ContextGridItem>, r: int) -> Seq<ContextGridItem> {
    items.map_values(
        |it: ContextGridItem|
            ContextGridItem { right: compact_link(it.right, r), down: compact_link(it.down, r), ..it },
    ).remove(r)
}

/// The position of old index `x` after position `r` is removed.
pub open spec fn adjusted(x: int, r: int) -> int {
    if x > r {
        x - 1
    } else {
        x
    }
}

/// The topological numbering after node `r` is deleted: numbers above the
/// deleted node's shift down by one, and its own entry is dropped.
pub open spec fn remove_rank(rank: Seq<int>, r: int) -> Seq<int> {
    rank.map_values(|v: int| if v > rank[r] { v - 1 } else { v }).remove(r)
}

/// A state from which deleting node `r` is sound: the structural invariants
/// hold everywhere but at `r`, whose links may have been handed over
/// already, and nothing links to `r` any more.
pub open spec fn remove_mid_ok(items: Seq<ContextGridItem>, rank: Seq<int>, r: int) -> bool {
    &&& rank_ok(items, rank)
    &&& links_ok(items)
    &&& forall|i: int| 0 <= i < items.len() && i != r ==> !is_edge(items, i, r)
    &&& forall|i: int|
        #![trigger items[i]]
        0 <= i < items.len() && i != r ==> (items[i].right is Some && items[i].down is Some
            ==> items[i].right->0 != items[i].down->0)
    &&& forall|i1: int, i2: int, j: int|
        #[trigger] is_edge(items, i1, j) && #[trigger] is_edge(items, i2, j) && i1 != r && i2 != r
            ==> i1 == i2
}

/// Deleting a node nothing links to preserves every structural invariant:
/// the compacted arena keeps in-range links, distinct children, single
/// parents, and the squashed numbering still witnesses acyclicity.
#[verifier::rlimit(60)]
pub proof fn lemma_rank_remove(items: Seq<ContextGridItem>, rank: Seq<int>, r: int)
    requires
        remove_mid_ok(items, rank, r),
        0 <= r < items.len(),
        items.len() >= 2,
    ensures
        links_ok(compacted(items, r)),
        no_dup_children(compacted(items, r)),
        single_parent(compacted(items, r)),
        rank_ok(compacted(items, r), remove_rank(rank, r)),
        compacted(items, r).len() == items.len() - 1,
        remove_rank(rank, r).len() == items.len() - 1,
        forall|i: int|
            #![trigger compacted(items, r)[i]]
            0 <= i < items.len() - 1 ==> compacted(items, r)[i].val == items[
                if i < r { i } else { i + 1 }
            ].val,
        forall|i: int|
            #![trigger compacted(items, r)[i]]
            0 <= i < items.len() - 1 ==> {
                &&& compacted(items, r)[i].right == compact_link(
                    items[if i < r { i } else { i + 1 }].right,
                    r,
                )
                &&& compacted(items, r)[i].down == compact_link(
                    items[if i < r { i } else { i + 1 }].down,
                    r,
                )
            },
{
    let n = items.len() as int;
    let c = compacted(items, r);
    let rk = remove_rank(rank, r);
    lemma_compact_shape(items, rank, r);
    assert forall|i: int|
        #![trigger c[i]]
        0 <= i < c.len() implies {
        &&& (c[i].right is Some ==> c[i].right->0 < c.len() && rk[i] < rk[c[i].right->0 as int])
        &&& (c[i].down is Some ==> c[i].down->0 < c.len() && rk[i] < rk[c[i].down->0 as int])
    } by {
        let oi = if i < r { i } else { i + 1 };
        if items[oi].right is Some {
            let ov = items[oi].right->0 as int;
            assert(is_edge(items, oi, ov));
            assert(ov != r);
            assert(rank[oi] < rank[ov]);
            let nv = adjusted(ov, r);
            assert(c[i].right == Some(nv as usize));
            assert(rk[nv] == (if rank[ov] > rank[r] { rank[ov] - 1 } else { rank[ov] }));
        }
        if items[oi].down is Some {
            let ov = items[oi].down->0 as int;
            assert(is_edge(items, oi, ov));
            assert(ov != r);
            assert(rank[oi] < rank[ov]);
            let nv = adjusted(ov, r);
            assert(c[i].down == Some(nv as usize));
            assert(rk[nv] == (if rank[ov] > rank[r] { rank[ov] - 1 } else { rank[ov] }));
        }
    }
    assert forall|i: int, j: int|
        0 <= i < rk.len() && 0 <= j < rk.len() && i != j implies #[trigger] rk[i] != #[trigger] rk[j] by {
        let oi = if i < r { i } else { i + 1 };
        let oj = if j < r { j } else { j + 1 };
        assert(rank[oi] != rank[oj]);
        assert(rank[oi] != rank[r]);
        assert(rank[oj] != rank[r]);
    }
    assert forall|i1: int, i2: int, j: int|
        #[trigger] is_edge(c, i1, j) && #[trigger] is_edge(c, i2, j) implies i1 == i2 by {
        if i1 != i2 {
            lemma_compact_edge(items, r, i1, j);
            lemma_compact_edge(items, r, i2, j);
            let o1 = if i1 < r { i1 } else { i1 + 1 };
            let o2 = if i2 < r { i2 } else { i2 + 1 };
            let oj = if j < r { j } else { j + 1 };
            assert(is_edge(items, o1, oj));
            assert(is_edge(items, o2, oj));
            assert(o1 == o2);
            assert(false);
        }
    }
    assert forall|i: int|
        #![trigger c[i]]
        0 <= i < c.len() implies (c[i].right is Some && c[i].down is Some ==> c[i].right->0
        != c[i].down->0) by {
        let oi = if i < r { i } else { i + 1 };
        if items[oi].right is Some && items[oi].down is Some {
            let rv = items[oi].right->0 as int;
            let dv = items[oi].down->0 as int;
            assert(is_edge(items, oi, rv));
            assert(is_edge(items, oi, dv));
            assert(rv != r);
            assert(dv != r);
        }
    }
}

/// Element-wise shape of a compaction: position `i` of the result carries
/// old position `i` (below the removed index) or `i + 1` (above it), with
/// its links shifted; the squashed numbering lines up the same way and
/// stays within range.
proof fn lemma_compact_shape(items: Seq<ContextGridItem>, rank: Seq<int>, r: int)
    requires
        rank_ok(items, rank),
        0 <= r < items.len(),
    ensures
        compacted(items, r).len() == items.len() - 1,
        remove_rank(rank, r).len() == items.len() - 1,
        forall|i: int|
            #![trigger compacted(items, r)[i]]
            0 <= i < items.len() - 1 ==> {
                let oi = if i < r { i } else { i + 1 };
                &&& compacted(items, r)[i].val == items[oi].val
                &&& compacted(items, r)[i].right == compact_link(items[oi].right, r)
                &&& compacted(items, r)[i].down == compact_link(items[oi].down, r)
            },
        forall|i: int|
            0 <= i < items.len() - 1 ==> {
                let oi = if i < r { i } else { i + 1 };
                &&& #[trigger] remove_rank(rank, r)[i] == (if rank[oi] > rank[r] {
                    rank[oi] - 1
                } else {
                    rank[oi]
                })
                &&& 0 <= remove_rank(rank, r)[i] < items.len() - 1
            },
{
    let n = items.len() as int;
    assert forall|i: int|
        0 <= i < n - 1 implies {
        let oi = if i < r { i } else { i + 1 };
        &&& #[trigger] remove_rank(rank, r)[i] == (if rank[oi] > rank[r] {
            rank[oi] - 1
        } else {
            rank[oi]
        })
        &&& 0 <= remove_rank(rank, r)[i] < n - 1
    } by {
        let oi = if i < r { i } else { i + 1 };
        assert(rank[oi] != rank[r]);
        assert(0 <= rank[oi] < n);
    }
}

/// An edge of the compacted arena comes from an edge of the old arena: the
/// source and target both shift back up across the removed position (the
/// removed position itself was no edge's target).
proof fn lemma_compact_edge(items: Seq<ContextGridItem>, r: int, i: int, j: int)
    requires
        links_ok(items),
        0 <= r < items.len(),
        forall|m: int| 0 <= m < items.len() && m != r ==> !is_edge(items, m, r),
        is_edge(compacted(items, r), i, j),
    ensures
        is_edge(items, (if i < r { i } else { i + 1 }), (if j < r { j } else { j + 1 })),
{
    let c = compacted(items, r);
    let oi = if i < r { i } else { i + 1 };
    assert(c[i].val == items[oi].val && c[i].right == compact_link(items[oi].right, r) && c[i].down
        == compact_link(items[oi].down, r));
    assert(oi != r);
    if c[i].right is Some && c[i].right->0 as int == j {
        let v = items[oi].right->0 as int;
        assert(is_edge(items, oi, v));
        assert(v != r);
        if v > r {
            assert(j == v - 1);
        } else {
            assert(j == v);
        }
    } else {
        let v = items[oi].down->0 as int;
        assert(is_edge(items, oi, v));
        assert(v != r);
        if v > r {
            assert(j == v - 1);
        } else {
            assert(j == v);
        }
    }
}

/// Rewiring a parent's link from the node about to be removed onto one of
/// that node's own children (or clearing it) leaves a state from which the
/// removal is sound: the handed-over target sits strictly below the parent
/// in the topological numbering, and nothing links to the removed node any
/// more.
#[verifier::rlimit(60)]
pub proof fn lemma_remove_mid_parent(
    items0: Seq<ContextGridItem>,
    rank0: Seq<int>,
    items_mid: Seq<ContextGridItem>,
    cur: int,
    p: int,
    is_right: bool,
)
    requires
        rank_ok(items0, rank0),
        links_ok(items0),
        no_dup_children(items0),
        single_parent(items0),
        0 <= cur < items0.len(),
        0 <= p < items0.len(),
        is_right ==> items0[p].right is Some && items0[p].right->0 as int == cur,
        !is_right ==> items0[p].down is Some && items0[p].down->0 as int == cur,
        items_mid.len() == items0.len(),
        forall|i: int|
            #![trigger items_mid[i]]
            0 <= i < items0.len() && i != p ==> items_mid[i].right == items0[i].right
                && items_mid[i].down == items0[i].down,
        is_right ==> items_mid[p].down == items0[p].down,
        !is_right ==> items_mid[p].right == items0[p].right,
        ({
            let handed = if is_right {
                items_mid[p].right
            } else {
                items_mid[p].down
            };
            handed is Some ==> is_edge(items0, cur, handed->0 as int)
        }),
    ensures
        remove_mid_ok(items_mid, rank0, cur),
        p != cur,
{
    let n = items0.len() as int;
    assert(is_edge(items0, p, cur));
    assert(rank0[p] < rank0[cur]);
    let handed = if is_right {
        items_mid[p].right
    } else {
        items_mid[p].down
    };
    if handed is Some {
        let t = handed->0 as int;
        assert(is_edge(items0, cur, t));
        assert(rank0[cur] < rank0[t]);
        assert(0 <= t < n);
    }
    assert forall|i: int| 0 <= i < n && i != cur implies !is_edge(items_mid, i, cur) by {
        if is_edge(items_mid, i, cur) {
            if i == p {
                // p's unchanged link would be a second old edge onto cur
                assert(is_edge(items0, p, cur));
                if is_right {
                    assert(items_mid[p].down is Some && items_mid[p].down->0 as int == cur);
                    assert(items0[p].right->0 == items0[p].down->0);
                } else {
                    assert(items_mid[p].right is Some && items_mid[p].right->0 as int == cur);
                    assert(items0[p].right->0 == items0[p].down->0);
                }
                assert(false);
            } else {
                assert(is_edge(items0, i, cur));
                assert(i == p);
                assert(false);
            }
        }
    }
    assert forall|i: int|
        #![trigger items_mid[i]]
        0 <= i < n && i != cur implies (items_mid[i].right is Some && items_mid[i].down is Some
        ==> items_mid[i].right->0 != items_mid[i].down->0) by {
        if i == p && items_mid[p].right is Some && items_mid[p].down is Some
            && items_mid[p].right->0 == items_mid[p].down->0 {
            let t = items_mid[p].right->0 as int;
            // the kept link is an old edge of p, the handed one descends from cur
            assert(is_edge(items0, p, t));
            assert(is_edge(items0, cur, t));
            assert(p == cur);
            assert(false);
        }
    }
    assert forall|i1: int, i2: int, j: int|
        #[trigger] is_edge(items_mid, i1, j) && #[trigger] is_edge(items_mid, i2, j) && i1 != cur
            && i2 != cur implies i1 == i2 by {
        if i1 != i2 {
            lemma_mid_edge_source(items0, items_mid, cur, p, is_right, i1, j);
            lemma_mid_edge_source(items0, items_mid, cur, p, is_right, i2, j);
            assert(false);
        }
    }
    assert forall|i: int|
        #![trigger items_mid[i]]
        0 <= i < n implies {
        &&& (items_mid[i].right is Some ==> items_mid[i].right->0 < n && rank0[i] < rank0[
            items_mid[i].right->0 as int
        ])
        &&& (items_mid[i].down is Some ==> items_mid[i].down->0 < n && rank0[i] < rank0[
            items_mid[i].down->0 as int
        ])
    } by {
        if i != p {
            assert(items_mid[i].right == items0[i].right && items_mid[i].down == items0[i].down);
        }
    }
}

/// Every edge of the rewired arena that does not start at the parent's
/// changed link is an old edge, and an edge onto a target either is an old
/// edge from the same source or is the parent's handed-over link whose old
/// source was the removed node.
proof fn lemma_mid_edge_source(
    items0: Seq<ContextGridItem>,
    items_mid: Seq<ContextGridItem>,
    cur: int,
    p: int,
    is_right: bool,
    i: int,
    j: int,
)
    requires
        single_parent(items0),
        0 <= cur < items0.len(),
        0 <= p < items0.len(),
        p != cur,
        items_mid.len() == items0.len(),
        forall|m: int|
            #![trigger items_mid[m]]
            0 <= m < items0.len() && m != p ==> items_mid[m].right == items0[m].right
                && items_mid[m].down == items0[m].down,
        is_right ==> items_mid[p].down == items0[p].down,
        !is_right ==> items_mid[p].right == items0[p].right,
        ({
            let handed = if is_right {
                items_mid[p].right
            } else {
                items_mid[p].down
            };
            handed is Some ==> is_edge(items0, cur, handed->0 as int)
        }),
        is_edge(items_mid, i, j),
        i != cur,
    ensures
        is_edge(items0, i, j) || (i == p && is_edge(items0, cur, j)),
{
    if i != p {
        assert(is_edge(items0, i, j));
    } else {
        let handed = if is_right {
            items_mid[p].right
        } else {
            items_mid[p].down
        };
        if handed is Some && handed->0 as int == j {
            assert(is_edge(items0, cur, j));
        } else {
            assert(is_edge(items0, p, j));
        }
    }
}

/// When the removed node has no parent, no link changes at all, so the
/// state is ready for the removal as it stands.
pub proof fn lemma_remove_mid_root(
    items0: Seq<ContextGridItem>,
    rank0: Seq<int>,
    items_mid: Seq<ContextGridItem>,
    cur: int,
)
    requires
        rank_ok(items0, rank0),
        links_ok(items0),
        no_dup_children(items0),
        single_parent(items0),
        0 <= cur < items0.len(),
        forall|i: int| 0 <= i < items0.len() ==> !is_edge(items0, i, cur),
        items_mid.len() == items0.len(),
        forall|i: int|
            #![trigger items_mid[i]]
            0 <= i < items0.len() ==> items_mid[i].right == items0[i].right && items_mid[i].down
                == items0[i].down,
    ensures
        remove_mid_ok(items_mid, rank0, cur),
{
    assert forall|i: int| 0 <= i < items0.len() && i != cur implies !is_edge(items_mid, i, cur) by {
        if is_edge(items_mid, i, cur) {
            assert(is_edge(items0, i, cur));
        }
    }
    assert forall|i1: int, i2: int, j: int|
        #[trigger] is_edge(items_mid, i1, j) && #[trigger] is_edge(items_mid, i2, j) && i1 != cur
            && i2 != cur implies i1 == i2 by {
        if 0 <= i1 < items0.len() && 0 <= i2 < items0.len() {
            assert(is_edge(items0, i1, j));
            assert(is_edge(items0, i2, j));
        }
    }
    assert forall|i: int|
        #![trigger items_mid[i]]
        0 <= i < items0.len() implies {
        &&& (items_mid[i].right is Some ==> items_mid[i].right->0 < items0.len() && rank0[i]
            < rank0[items_mid[i].right->0 as int])
        &&& (items_mid[i].down is Some ==> items_mid[i].down->0 < items0.len() && rank0[i] < rank0[
            items_mid[i].down->0 as int
        ])
    } by {
        assert(items_mid[i].right == items0[i].right && items_mid[i].down == items0[i].down);
    }
}

/// The structural invariants only read the links: arenas equal link-for-link
/// satisfy the same ones.
pub proof fn lemma_links_congruent(
    items1: Seq<ContextGridItem>,
    items2: Seq<ContextGridItem>,
    rank: Seq<int>,
)
    requires
        items2.len() == items1.len(),
        forall|i: int|
            #![trigger items2[i]]
            0 <= i < items1.len() ==> items2[i].right == items1[i].right && items2[i].down
                == items1[i].down,
        links_ok(items1),
        no_dup_children(items1),
        single_parent(items1),
        rank_ok(items1, rank),
    ensures
        links_ok(items2),
        no_dup_children(items2),
        single_parent(items2),
        rank_ok(items2, rank),
{
    assert forall|i1: int, i2: int, j: int|
        #[trigger] is_edge(items2, i1, j) && #[trigger] is_edge(items2, i2, j) implies i1 == i2 by {
        assert(is_edge(items1, i1, j));
        assert(is_edge(items1, i2, j));
    }
    assert forall|i: int|
        #![trigger items2[i]]
        0 <= i < items2.len() implies {
        &&& (items2[i].right is Some ==> items2[i].right->0 < items2.len() && rank[i] < rank[
            items2[i].right->0 as int
        ])
        &&& (items2[i].down is Some ==> items2[i].down->0 < items2.len() && rank[i] < rank[
            items2[i].down->0 as int
        ])
    } by {
        assert(items2[i].right == items1[i].right && items2[i].down == items1[i].down);
    }
}

/// `it` with its pane's width grown by `acc` (clamped) and its grid
/// recomputed.
pub open spec fn item_with_increased_width(it: ContextGridItem, acc: int) -> ContextGridItem {
    ContextGridItem {
        val: Context {
            dimension: built(
                it.val.dimension.width + acc,
                it.val.dimension.height as int,
                it.val.dimension.dimension,
                1,
                it.val.dimension.margin,
            ),
            ..it.val
        },
        ..it
    }
}

/// `it` with its pane's height grown by `acc` (clamped) and its grid
/// recomputed.
pub open spec fn item_with_increased_height(it: ContextGridItem, acc: int) -> ContextGridItem {
    ContextGridItem {
        val: Context {
            dimension: built(
                it.val.dimension.width as int,
                it.val.dimension.height + acc,
                it.val.dimension.dimension,
                1,
                it.val.dimension.margin,
            ),
            ..it.val
        },
        ..it
    }
}

/// `it` with its right link replaced.
pub open spec fn item_with_right(it: ContextGridItem, l: Option<usize>) -> ContextGridItem {
    ContextGridItem { right: l, ..it }
}

/// `it` with its down link replaced.
pub open spec fn item_with_down(it: ContextGridItem, l: Option<usize>) -> ContextGridItem {
    ContextGridItem { down: l, ..it }
}

/// The arena and selection after the node at `cur` is removed. The freed
/// space goes to one neighbor and one link is rewired, then the arena is
/// compacted; which neighbor inherits depends on how `cur` hangs in the
/// tree:
/// - a right child with a down child: the down child gains the freed height
///   plus the gap and replaces `cur` as the parent's right child, and
///   becomes selected;
/// - a right child without one: the parent gains the freed width plus the
///   gap, takes over `cur`'s right link, and becomes selected;
/// - a down child: the vertical mirror images of the two cases above;
/// - no parent, with a right (else down) child: that child gains the freed
///   width (height) plus the gap; the selection index deliberately stays
///   where it was, moving only if the arena's new end forces it in;
/// - no parent and no children: the selection steps back in cyclic order.
pub open spec fn remove_current_spec(items: Seq<ContextGridItem>, cur: int) -> (
    Seq<ContextGridItem>,
    int,
) {
    let n = items.len() as int;
    let w = items[cur].val.dimension.width as int;
    let h = items[cur].val.dimension.height as int;
    match parent_scan(items, cur, 0) {
        Some((is_right, p_pos)) => {
            let p = p_pos as int;
            if is_right {
                if items[cur].down is Some {
                    let d = items[cur].down->0 as int;
                    let items1 = items.update(d, item_with_increased_height(items[d], h + PADDING));
                    let items2 = items1.update(
                        p,
                        item_with_right(items1[p], Some(d as usize)),
                    );
                    (compacted(items2, cur), adjusted(d, cur))
                } else {
                    let items1 = items.update(
                        p,
                        item_with_right(item_with_increased_width(items[p], w + PADDING), items[cur].right),
                    );
                    (compacted(items1, cur), adjusted(p, cur))
                }
            } else {
                if items[cur].right is Some {
                    let rr = items[cur].right->0 as int;
                    let items1 = items.update(
                        rr,
                        item_with_increased_width(items[rr], w + PADDING),
                    );
                    let items2 = items1.update(
                        p,
                        item_with_down(items1[p], Some(rr as usize)),
                    );
                    (compacted(items2, cur), adjusted(rr, cur))
                } else {
                    let items1 = items.update(
                        p,
                        item_with_down(item_with_increased_height(items[p], h + PADDING), items[cur].down),
                    );
                    (compacted(items1, cur), adjusted(p, cur))
                }
            }
        },
        None => {
            if items[cur].right is Some {
                let rr = items[cur].right->0 as int;
                let items1 = items.update(rr, item_with_increased_width(items[rr], w + PADDING));
                (compacted(items1, cur), if cur < n - 1 { cur } else { n - 2 })
            } else if items[cur].down is Some {
                let d = items[cur].down->0 as int;
                let items1 = items.update(d, item_with_increased_height(items[d], h + PADDING));
                (compacted(items1, cur), if cur < n - 1 { cur } else { n - 2 })
            } else {
                (compacted(items, cur), if cur == 0 { n - 2 } else { cur - 1 })
            }
        },
    }
}

/// Every labeled region in the list sits at an offset within the coordinate
/// range (separator rectangles are not constrained).
pub open spec fn region_positions_ok(objs: Seq<Object>) -> bool {
    forall|k: int|
        0 <= k < objs.len() ==> (#[trigger] objs[k] matches Object::RichText(rt)
            ==> -PX_LIMIT <= rt.position.x <= PX_LIMIT && -PX_LIMIT <= rt.position.y <= PX_LIMIT)
}

/// Region offsets produced by the traversal stay within the coordinate
/// range: the starting offset is bounded and every child offset is clamped.
pub proof fn lemma_plot_positions(
    items: Seq<ContextGridItem>,
    index: int,
    margin: Delta<i64>,
    border: Rgba,
    fuel: nat,
)
    requires
        margin_ok(margin),
    ensures
        region_positions_ok(plot_spec(items, index, margin, border, fuel)),
    decreases fuel,
{
    if fuel == 0 || index < 0 || index >= items.len() {
    } else {
        let item = items[index];
        let objs = plot_spec(items, index, margin, border, fuel);
        let head = seq![region_obj(item, margin)];
        let right_part = if item.right is Some {
            let nm = right_child_margin(item, margin);
            lemma_plot_positions(items, item.right->0 as int, nm, border, (fuel - 1) as nat);
            seq![right_separator(item, nm, border)] + plot_spec(
                items,
                item.right->0 as int,
                nm,
                border,
                (fuel - 1) as nat,
            )
        } else {
            Seq::empty()
        };
        let down_part = if item.down is Some {
            let nm = down_child_margin(item, margin);
            lemma_plot_positions(items, item.down->0 as int, nm, border, (fuel - 1) as nat);
            seq![down_separator(item, nm, border)] + plot_spec(
                items,
                item.down->0 as int,
                nm,
                border,
                (fuel - 1) as nat,
            )
        } else {
            Seq::empty()
        };
        assert(objs == head + right_part + down_part);
        assert forall|k: int|
            0 <= k < objs.len() implies (#[trigger] objs[k] matches Object::RichText(rt)
            ==> -PX_LIMIT <= rt.position.x <= PX_LIMIT && -PX_LIMIT <= rt.position.y
                <= PX_LIMIT) by {
            if k == 0 {
                assert(objs[k] == region_obj(item, margin));
            } else if k < 1 + right_part.len() {
                assert(objs[k] == right_part[k - 1]);
            } else {
                assert(objs[k] == down_part[k - 1 - right_part.len()]);
            }
        }
    }
}

/// A successful identity scan names a real arena position at or after the
/// scan's start.
pub proof fn lemma_find_id_range(items: Seq<ContextGridItem>, id: usize, k: int)
    requires
        0 <= k,
        items.len() <= usize::MAX,
    ensures
        ContextGrid::find_id_from(items, id, k) matches Some(p) ==> k <= p < items.len()
            && items[p as int].val.rich_text_id == id,
    decreases items.len() - k,
{
    if 0 <= k < items.len() {
        lemma_find_id_range(items, id, k + 1);
    }
}

/// A value saturated below at zero, as a pixel coordinate becomes when it
/// is compared in unsigned window space.
pub open spec fn clamp0(v: int) -> int {
    if v < 0 {
        0
    } else {
        v
    }
}

/// The pointer at (`mx`, `my`) falls within the pane `item` whose region is
/// drawn at unscaled offset `pos`: the offset is scaled by the pane's own
/// cell scale, saturated at the window edge, and the pointer must lie
/// within the half-open box `[offset, offset + pane size)` on both axes — a
/// pointer exactly on a pane's lower or right edge is outside it.
pub open spec fn mouse_over(item: ContextGridItem, pos: Position, mx: int, my: int) -> bool {
    let scale = item.val.dimension.dimension.scale as int;
    &&& mx >= clamp0(pos.x * scale)
    &&& my >= clamp0(pos.y * scale)
    &&& mx < clamp0(pos.x * scale + item.val.dimension.width)
    &&& my < clamp0(pos.y * scale + item.val.dimension.height)
}

/// Walks the region list from position `k` and yields the arena position of
/// the first labeled region whose pane is under the pointer; separators and
/// labels whose identity is unknown are skipped.
pub open spec fn mouse_hit_scan(
    items: Seq<ContextGridItem>,
    objs: Seq<Object>,
    k: int,
    mx: int,
    my: int,
) -> Option<usize>
    decreases objs.len() - k,
{
    if k < 0 || k >= objs.len() {
        None
    } else {
        match objs[k] {
            Object::RichText(rt) => match ContextGrid::find_id_from(items, rt.id, 0) {
                Some(pos) => if mouse_over(items[pos as int], rt.position, mx, my) {
                    Some(pos)
                } else {
                    mouse_hit_scan(items, objs, k + 1, mx, my)
                },
                None => mouse_hit_scan(items, objs, k + 1, mx, my),
            },
            Object::Rect(_) => mouse_hit_scan(items, objs, k + 1, mx, my),
        }
    }
}

/// Walks the region list from position `k` and yields the render offset of
/// the first labeled region carrying identity `id` — the offset plus a
/// fixed inset on both axes — or `base` when no region carries it.
pub open spec fn margin_scan(objs: Seq<Object>, id: usize, k: int, base: Delta<i64>) -> Delta<i64>
    decreases objs.len() - k,
{
    if k < 0 || k >= objs.len() {
        base
    } else {
        match objs[k] {
            Object::RichText(rt) => if rt.id == id {
                Delta {
                    x: (rt.position.x + PADDING) as i64,
                    top_y: (rt.position.y + PADDING) as i64,
                    bottom_y: base.bottom_y,
                }
            } else {
                margin_scan(objs, id, k + 1, base)
            },
            Object::Rect(_) => margin_scan(objs, id, k + 1, base),
        }
    }
}

/// A sequence of `n` zero adjustment pairs.
pub open spec fn zero_amounts(n: nat) -> Seq<(i64, i64)> {
    Seq::new(n, |i: int| (0i64, 0i64))
}

/// Distributes a whole-box size change over the subtree at `index`: a node
/// with a right child hands it half the width change and keeps what the
/// child reports as its own; a node with a down child does the same on the
/// vertical axis; a leaf keeps the change unchanged. The result pairs the
/// filled adjustment table with the node's own (width, height) share.
pub open spec fn resize_amounts(
    items: Seq<ContextGridItem>,
    index: int,
    available_width: int,
    available_height: int,
    acc: Seq<(i64, i64)>,
    fuel: nat,
) -> (Seq<(i64, i64)>, (int, int))
    decreases fuel,
{
    if fuel == 0 || index < 0 || index >= items.len() {
        (acc, (available_width, available_height))
    } else {
        let item = items[index];
        let step_right = if item.right is Some {
            let sub = resize_amounts(
                items,
                item.right->0 as int,
                div_trunc(available_width, 2),
                available_height,
                acc,
                (fuel - 1) as nat,
            );
            (sub.0, sub.1.0)
        } else {
            (acc, available_width)
        };
        let step_down = if item.down is Some {
            let sub = resize_amounts(
                items,
                item.down->0 as int,
                available_width,
                div_trunc(available_height, 2),
                step_right.0,
                (fuel - 1) as nat,
            );
            (sub.0, sub.1.1)
        } else {
            (step_right.0, available_height)
        };
        (
            step_down.0.update(index, (step_right.1 as i64, step_down.1 as i64)),
            (step_right.1, step_down.1),
        )
    }
}

/// Like the traversal, the distribution is fuel-stable once the fuel covers
/// the longest link chain from `index`.
pub proof fn lemma_resize_fuel(
    items: Seq<ContextGridItem>,
    rank: Seq<int>,
    index: int,
    available_width: int,
    available_height: int,
    acc: Seq<(i64, i64)>,
    f1: nat,
    f2: nat,
)
    requires
        rank_ok(items, rank),
        links_ok(items),
        0 <= index < items.len() ==> f1 >= items.len() - rank[index],
        0 <= index < items.len() ==> f2 >= items.len() - rank[index],
    ensures
        resize_amounts(items, index, available_width, available_height, acc, f1)
            == resize_amounts(items, index, available_width, available_height, acc, f2),
    decreases f1,
{
    if 0 <= index < items.len() {
        let item = items[index];
        let acc1 = if item.right is Some {
            let r = item.right->0 as int;
            lemma_resize_fuel(
                items,
                rank,
                r,
                div_trunc(available_width, 2),
                available_height,
                acc,
                (f1 - 1) as nat,
                (f2 - 1) as nat,
            );
            resize_amounts(
                items,
                r,
                div_trunc(available_width, 2),
                available_height,
                acc,
                (f1 - 1) as nat,
            ).0
        } else {
            acc
        };
        if item.down is Some {
            let d = item.down->0 as int;
            lemma_resize_fuel(
                items,
                rank,
                d,
                available_width,
                div_trunc(available_height, 2),
                acc1,
                (f1 - 1) as nat,
                (f2 - 1) as nat,
            );
        }
    }
}

/// The arena after a whole-box resize distributing `dw`/`dh` from the node
/// at `root`: each pane's box grows by its share and its grid is
/// recomputed; panes the distribution never reaches keep their size (their
/// share is zero) but are recomputed all the same.
pub open spec fn resized_items(
    items: Seq<ContextGridItem>,
    root: int,
    dw: int,
    dh: int,
) -> Seq<ContextGridItem> {
    let amounts = resize_amounts(
        items,
        root,
        dw,
        dh,
        zero_amounts(items.len()),
        items.len() as nat,
    ).0;
    Seq::new(
        items.len(),
        |i: int|
            ContextGridItem {
                val: Context {
                    dimension: built(
                        items[i].val.dimension.width + amounts[i].0 as int,
                        items[i].val.dimension.height + amounts[i].1 as int,
                        items[i].val.dimension.dimension,
                        1,
                        items[i].val.dimension.margin,
                    ),
                    ..items[i].val
                },
                ..items[i]
            },
    )
}

/// The pane tree: the arena, the selected index, the outer pixel box, the
/// outer margin and the separator color. The `rank` field is a ghost
/// topological numbering witnessing that the link graph is acyclic.
pub struct ContextGrid {
    pub width: i64,
    pub height: i64,
    pub current: usize,
    pub margin: Delta<i64>,
    pub border_color: Rgba,
    pub inner: Vec<ContextGridItem>,
    pub rank: Ghost<Seq<int>>,
}

impl ContextGrid {
    /// The grid's well-formedness: at least one pane, a valid selection,
    /// in-range links, an acyclicity witness, and every pane's geometry
    /// within range and derived from its inputs.
    pub open spec fn inv(self) -> bool {
        &&& 1 <= self.inner@.len()
        &&& self.current < self.inner@.len()
        &&& links_ok(self.inner@)
        &&& items_wf(self.inner@)
        &&& no_dup_children(self.inner@)
        &&& single_parent(self.inner@)
        &&& rank_ok(self.inner@, self.rank@)
        &&& margin_ok(self.margin)
        &&& -PX_LIMIT <= self.width <= PX_LIMIT
        &&& -PX_LIMIT <= self.height <= PX_LIMIT
    }

    /// Creates a grid whose single pane fills the whole box: the outer box
    /// is taken from the pane's own geometry.
    pub fn new(context: Context, margin: Delta<i64>, border_color: Rgba) -> (r: Self)
        requires
            context.dimension.wf(),
            context.dimension.consistent(),
        ensures
            r.inv(),
            r.inner@ =~= seq![
                ContextGridItem { val: context, right: None::<usize>, down: None::<usize> },
            ],
            r.current == 0,
            r.margin == margin_clamped(margin),
            r.width == context.dimension.width,
            r.height == context.dimension.height,
            r.border_color == border_color,
    {
        let width = context.dimension.width;
        let height = context.dimension.height;
        let ghost initial_rank: Seq<int> = seq![0int];
        let mut inner: Vec<ContextGridItem> = Vec::new();
        inner.push(ContextGridItem::new(context));
        Self {
            inner,
            current: 0,
            margin: clamp_margin(margin),
            width,
            height,
            border_color,
            rank: Ghost(initial_rank),
        }
    }

    /// How many panes the grid holds.
    pub fn len(&self) -> (r: usize)
        ensures
            r == self.inner@.len(),
    {
        self.inner.len()
    }

    /// The arena, read-only.
    pub fn contexts(&self) -> (r: &Vec<ContextGridItem>)
        ensures
            r == &self.inner,
    {
        &self.inner
    }

    /// The arena, mutable. A caller that rewires links or resizes panes
    /// through this view is responsible for keeping the grid well-formed.
    pub fn contexts_mut(&mut self) -> (r: &mut Vec<ContextGridItem>)
        ensures
            *r == old(self).inner,
            *final(self) == (ContextGrid { inner: *final(r), ..*old(self) }),
    {
        &mut self.inner
    }

    /// The selected index after one forward step of cyclic selection.
    pub open spec fn next_split_current(self) -> int {
        if self.inner@.len() == 1 {
            self.current as int
        } else if self.current as int >= self.inner@.len() - 1 {
            0
        } else {
            self.current as int + 1
        }
    }

    /// The selected index after one backward step of cyclic selection.
    pub open spec fn prev_split_current(self) -> int {
        if self.inner@.len() == 1 {
            self.current as int
        } else if self.current == 0 {
            self.inner@.len() - 1
        } else {
            self.current as int - 1
        }
    }

    /// Moves the selection forward through `[0, len)` with wraparound; a
    /// no-op when only one pane exists. Selection never inspects the tree:
    /// it is a flat cyclic walk over arena order.
    pub fn select_next_split(&mut self)
        requires
            old(self).inv(),
        ensures
            final(self).inv(),
            *final(self) == (ContextGrid {
                current: old(self).next_split_current() as usize,
                ..*old(self)
            }),
    {
        if self.inner.len() == 1 {
            return;
        }
        if self.current >= self.inner.len() - 1 {
            self.current = 0;
        } else {
            self.current += 1;
        }
    }

    /// Moves the selection backward through `[0, len)` with wraparound; a
    /// no-op when only one pane exists.
    pub fn select_prev_split(&mut self)
        requires
            old(self).inv(),
        ensures
            final(self).inv(),
            *final(self) == (ContextGrid {
                current: old(self).prev_split_current() as usize,
                ..*old(self)
            }),
    {
        if self.inner.len() == 1 {
            return;
        }
        if self.current == 0 {
            self.current = self.inner.len() - 1;
        } else {
            self.current -= 1;
        }
    }

    /// The selected arena index.
    pub fn current_index(&self) -> (r: usize)
        ensures
            r == self.current,
    {
        self.current
    }

    /// The selected pane.
    pub fn current(&self) -> (r: &Context)
        requires
            self.inv(),
        ensures
            *r == self.inner@[self.current as int].val,
    {
        &self.inner[self.current].val
    }

    /// The selected pane, mutable. A caller that changes the pane's
    /// geometry through this view is responsible for keeping it within the
    /// coordinate range and derived from its inputs.
    pub fn current_mut(&mut self) -> (r: &mut Context)
        requires
            old(self).inv(),
        ensures
            *r == old(self).inner@[old(self).current as int].val,
            final(self).inner@ == old(self).inner@.update(
                old(self).current as int,
                ContextGridItem {
                    val: *final(r),
                    ..old(self).inner@[old(self).current as int]
                },
            ),
            *final(self) == (ContextGrid { inner: final(self).inner, ..*old(self) }),
    {
        let idx = self.current;
        let item = &mut self.inner[idx];
        item.context_mut()
    }

    /// The first arena index holding the given rich-text identity, scanned
    /// in arena order.
    pub open spec fn find_id_from(items: Seq<ContextGridItem>, id: usize, k: int) -> Option<usize>
        decreases items.len() - k,
    {
        if k < 0 || k >= items.len() {
            None
        } else if items[k].val.rich_text_id == id {
            Some(k as usize)
        } else {
            Self::find_id_from(items, id, k + 1)
        }
    }

    fn find_id_rec(&self, searched_rich_text_id: usize, k: usize) -> (r: Option<usize>)
        requires
            k <= self.inner@.len(),
        ensures
            r == Self::find_id_from(self.inner@, searched_rich_text_id, k as int),
        decreases self.inner@.len() - k,
    {
        if k >= self.inner.len() {
            None
        } else if self.inner[k].val.rich_text_id == searched_rich_text_id {
            Some(k)
        } else {
            self.find_id_rec(searched_rich_text_id, k + 1)
        }
    }

    /// Finds the arena position of the pane holding the given rich-text
    /// identity: the first match in arena order, or `None` when the
    /// identity is unknown.
    pub fn find_by_rich_text_id(&self, searched_rich_text_id: usize) -> (r: Option<usize>)
        ensures
            r == Self::find_id_from(self.inner@, searched_rich_text_id, 0),
    {
        self.find_id_rec(searched_rich_text_id, 0)
    }

    /// The termination measure of the traversal at `index`: how far the
    /// node's topological number is from the arena length.
    pub open spec fn plot_measure(self, index: int) -> int {
        if 0 <= index < self.inner@.len() {
            self.inner@.len() - self.rank@[index]
        } else {
            0
        }
    }

    /// Appends the region list of the subtree rooted at `index` to
    /// `objects`, carrying `margin` as the accumulated offset: the node's
    /// region first, then separator and right subtree, then separator and
    /// down subtree. An out-of-range index contributes nothing.
    pub fn plot_objects(&self, objects: &mut Vec<Object>, index: usize, margin: Delta<i64>)
        requires
            self.inv(),
            margin_ok(margin),
        ensures
            final(objects)@ == old(objects)@ + plot_spec(
                self.inner@,
                index as int,
                margin,
                self.border_color,
                self.inner@.len() as nat,
            ),
        decreases self.plot_measure(index as int),
    {
        let ghost fuel = self.inner@.len() as nat;
        if index >= self.inner.len() {
            assert(objects@ =~= old(objects)@ + plot_spec(
                self.inner@,
                index as int,
                margin,
                self.border_color,
                fuel,
            ));
            return;
        }
        let item = self.inner[index];
        objects.push(
            Object::RichText(
                RichText {
                    id: item.val.rich_text_id,
                    position: Position { x: margin.x, y: margin.top_y },
                },
            ),
        );

        if let Some(right_item) = item.right {
            let dx = div_trunc_i64(item.val.dimension.width, item.val.dimension.dimension.scale);
            let new_margin = Delta {
                x: clamp_px(margin.x + PADDING + dx),
                top_y: margin.top_y,
                bottom_y: margin.bottom_y,
            };
            objects.push(
                Object::Rect(
                    Rect {
                        position: Position { x: new_margin.x - PADDING, y: new_margin.top_y },
                        color: self.border_color,
                        size: Size {
                            width: div_trunc_i64(2, item.val.dimension.dimension.scale),
                            height: item.val.dimension.height,
                        },
                    },
                ),
            );
            self.plot_objects(objects, right_item, new_margin);
            proof {
                lemma_plot_fuel(
                    self.inner@,
                    self.rank@,
                    right_item as int,
                    new_margin,
                    self.border_color,
                    fuel,
                    (fuel - 1) as nat,
                );
            }
        }

        if let Some(down_item) = item.down {
            let dy = div_trunc_i64(item.val.dimension.height, item.val.dimension.dimension.scale);
            let new_margin = Delta {
                x: margin.x,
                top_y: clamp_px(margin.top_y + PADDING + dy),
                bottom_y: margin.bottom_y,
            };
            objects.push(
                Object::Rect(
                    Rect {
                        position: Position { x: new_margin.x, y: new_margin.top_y - PADDING },
                        color: self.border_color,
                        size: Size {
                            width: item.val.dimension.width,
                            height: div_trunc_i64(2, item.val.dimension.dimension.scale),
                        },
                    },
                ),
            );
            self.plot_objects(objects, down_item, new_margin);
            proof {
                lemma_plot_fuel(
                    self.inner@,
                    self.rank@,
                    down_item as int,
                    new_margin,
                    self.border_color,
                    fuel,
                    (fuel - 1) as nat,
                );
            }
        }

        assert(objects@ =~= old(objects)@ + plot_spec(
            self.inner@,
            index as int,
            margin,
            self.border_color,
            fuel,
        ));
    }

    /// Whether some node links to position `j`.
    fn has_parent_exec(&self, j: usize) -> (r: bool)
        ensures
            r == has_parent(self.inner@, j as int),
    {
        let mut i: usize = 0;
        while i < self.inner.len()
            invariant
                i <= self.inner@.len(),
                forall|m: int| 0 <= m < i ==> !is_edge(self.inner@, m, j as int),
            decreases self.inner@.len() - i,
        {
            let hit_right = match self.inner[i].right {
                Some(r) => r == j,
                None => false,
            };
            let hit_down = match self.inner[i].down {
                Some(d) => d == j,
                None => false,
            };
            if hit_right || hit_down {
                assert(is_edge(self.inner@, i as int, j as int));
                return true;
            }
            i += 1;
        }
        assert forall|m: int| !is_edge(self.inner@, m, j as int) by {
            if 0 <= m < self.inner@.len() {
                assert(!is_edge(self.inner@, m, j as int));
            }
        }
        false
    }

    /// The first position at or after `k` with no incoming link, or 0 when
    /// every one has a parent.
    fn find_root_from(&self, k: usize) -> (r: usize)
        requires
            self.inv(),
            k <= self.inner@.len(),
        ensures
            r as int == first_root_from(self.inner@, k as int),
            r < self.inner@.len(),
        decreases self.inner@.len() - k,
    {
        if k >= self.inner.len() {
            0
        } else if !self.has_parent_exec(k) {
            k
        } else {
            self.find_root_from(k + 1)
        }
    }

    /// The canonical region list of the whole grid, in traversal order.
    /// With a single pane it is that pane's region at the outer margin and
    /// no separator; otherwise it is the pre-order traversal from the
    /// structural root.
    pub open spec fn objects_spec(self) -> Seq<Object> {
        if self.inner@.len() == 0 {
            Seq::empty()
        } else if self.inner@.len() == 1 {
            seq![region_obj(self.inner@[0], self.margin)]
        } else {
            plot_spec(
                self.inner@,
                first_root(self.inner@),
                self.margin,
                self.border_color,
                self.inner@.len() as nat,
            )
        }
    }

    /// Produces the ordered render-region list the renderer consumes each
    /// frame; pointer hit-testing walks the same list, so both derive from
    /// one traversal.
    pub fn objects(&self) -> (r: Vec<Object>)
        requires
            self.inv(),
        ensures
            r@ == self.objects_spec(),
    {
        let len = self.inner.len();
        let mut objects: Vec<Object> = Vec::new();
        if len == 0 {
            return objects;
        }
        if len == 1 {
            let item = &self.inner[0];
            objects.push(
                Object::RichText(
                    RichText {
                        id: item.val.rich_text_id,
                        position: Position { x: self.margin.x, y: self.margin.top_y },
                    },
                ),
            );
        } else {
            let root = self.find_root_from(0);
            self.plot_objects(&mut objects, root, self.margin);
        }
        objects
    }

    /// The geometry of the whole grid box under the selected pane's cell
    /// metrics and the outer margin.
    pub fn grid_dimension(&self) -> (r: ContextDimension)
        requires
            self.inv(),
        ensures
            r == built(
                self.width as int,
                self.height as int,
                self.inner@[self.current as int].val.dimension.dimension,
                1,
                self.margin,
            ),
            r.wf(),
            r.consistent(),
    {
        let current_context_dimension = self.inner[self.current].val.dimension;
        ContextDimension::build(
            self.width,
            self.height,
            current_context_dimension.dimension,
            1,
            self.margin,
        )
    }

    /// Splits the selected pane horizontally: the selected pane keeps the
    /// left half of its width less the separator gap, the new pane takes
    /// the other half and the same height, inherits the selected pane's old
    /// right chain, becomes its right sibling, and becomes selected. Panes
    /// not on the selected pane's axis keep their boxes.
    pub fn split_right(&mut self, context: Context)
        requires
            old(self).inv(),
            context.dimension.wf(),
            context.dimension.consistent(),
        ensures
            final(self).inv(),
            final(self).inner@ == split_right_items(
                old(self).inner@,
                old(self).current as int,
                context,
            ),
            final(self).current == old(self).inner@.len(),
            *final(self) == (ContextGrid {
                inner: final(self).inner,
                current: final(self).current,
                rank: final(self).rank,
                ..*old(self)
            }),
    {
        let cur = self.current;
        let old_right = self.inner[cur].right;
        let old_grid_item_height = self.inner[cur].val.dimension.height;
        let old_grid_item_width = self.inner[cur].val.dimension.width;
        let new_grid_item_width = div_trunc_i64(old_grid_item_width, 2);

        let mut cur_item = self.inner[cur];
        cur_item.val.dimension.update_width(new_grid_item_width - PADDING);

        let mut new_item = ContextGridItem::new(context);
        new_item.val.dimension.update_width(new_grid_item_width);
        new_item.val.dimension.update_height(old_grid_item_height);
        new_item.right = old_right;

        self.inner.push(new_item);
        let new_current = self.inner.len() - 1;
        cur_item.right = Some(new_current);
        self.inner[cur] = cur_item;
        self.current = new_current;

        proof {
            let ghost items_old = old(self).inner@;
            let ghost rank_old = old(self).rank@;
            self.rank@ = split_rank(rank_old, cur as int);
            assert(self.inner@ =~= split_right_items(items_old, cur as int, context));
            lemma_rank_split(items_old, rank_old, self.inner@, cur as int);
        }
    }

    /// Splits the selected pane vertically, the mirror image of
    /// `split_right`: the new pane takes the lower half of the height and
    /// the same width, inherits the old down chain, and becomes selected.
    pub fn split_down(&mut self, context: Context)
        requires
            old(self).inv(),
            context.dimension.wf(),
            context.dimension.consistent(),
        ensures
            final(self).inv(),
            final(self).inner@ == split_down_items(
                old(self).inner@,
                old(self).current as int,
                context,
            ),
            final(self).current == old(self).inner@.len(),
            *final(self) == (ContextGrid {
                inner: final(self).inner,
                current: final(self).current,
                rank: final(self).rank,
                ..*old(self)
            }),
    {
        let cur = self.current;
        let old_down = self.inner[cur].down;
        let old_grid_item_height = self.inner[cur].val.dimension.height;
        let old_grid_item_width = self.inner[cur].val.dimension.width;
        let new_grid_item_height = div_trunc_i64(old_grid_item_height, 2);

        let mut cur_item = self.inner[cur];
        cur_item.val.dimension.update_height(new_grid_item_height - PADDING);

        let mut new_item = ContextGridItem::new(context);
        new_item.val.dimension.update_height(new_grid_item_height);
        new_item.val.dimension.update_width(old_grid_item_width);
        new_item.down = old_down;

        self.inner.push(new_item);
        let new_current = self.inner.len() - 1;
        cur_item.down = Some(new_current);
        self.inner[cur] = cur_item;
        self.current = new_current;

        proof {
            let ghost items_old = old(self).inner@;
            let ghost rank_old = old(self).rank@;
            self.rank@ = split_rank(rank_old, cur as int);
            assert(self.inner@ =~= split_down_items(items_old, cur as int, context));
            lemma_rank_split(items_old, rank_old, self.inner@, cur as int);
        }
    }

    /// Replaces the outer margin (clamped) and recomputes every pane's grid
    /// under it. The inputs are (left inset, top inset, bottom inset).
    pub fn update_margin(&mut self, padding: (i64, i64, i64))
        requires
            old(self).inv(),
        ensures
            final(self).inv(),
            final(self).margin == margin_clamped(
                Delta { x: padding.0, top_y: padding.1, bottom_y: padding.2 },
            ),
            final(self).inner@.len() == old(self).inner@.len(),
            forall|i: int|
                #![trigger final(self).inner@[i]]
                0 <= i < old(self).inner@.len() ==> final(self).inner@[i] == (ContextGridItem {
                    val: Context {
                        dimension: built(
                            old(self).inner@[i].val.dimension.width as int,
                            old(self).inner@[i].val.dimension.height as int,
                            old(self).inner@[i].val.dimension.dimension,
                            1,
                            final(self).margin,
                        ),
                        ..old(self).inner@[i].val
                    },
                    ..old(self).inner@[i]
                }),
            *final(self) == (ContextGrid {
                inner: final(self).inner,
                margin: final(self).margin,
                ..*old(self)
            }),
    {
        self.margin = clamp_margin(Delta { x: padding.0, top_y: padding.1, bottom_y: padding.2 });
        let margin = self.margin;
        let mut i: usize = 0;
        while i < self.inner.len()
            invariant
                i <= self.inner@.len(),
                self.inner@.len() == old(self).inner@.len(),
                margin == margin_clamped(
                    Delta { x: padding.0, top_y: padding.1, bottom_y: padding.2 },
                ),
                margin_ok(margin),
                items_wf(old(self).inner@),
                forall|m: int|
                    #![trigger self.inner@[m]]
                    0 <= m < i ==> self.inner@[m] == (ContextGridItem {
                        val: Context {
                            dimension: built(
                                old(self).inner@[m].val.dimension.width as int,
                                old(self).inner@[m].val.dimension.height as int,
                                old(self).inner@[m].val.dimension.dimension,
                                1,
                                margin,
                            ),
                            ..old(self).inner@[m].val
                        },
                        ..old(self).inner@[m]
                    }),
                forall|m: int|
                    #![trigger self.inner@[m]]
                    i <= m < self.inner@.len() ==> self.inner@[m] == old(self).inner@[m],
                *self == (ContextGrid { inner: self.inner, margin, ..*old(self) }),
            decreases self.inner@.len() - i,
        {
            let mut it = self.inner[i];
            it.val.dimension.update_margin(margin);
            self.inner[i] = it;
            i += 1;
        }
        proof {
            lemma_links_congruent(old(self).inner@, self.inner@, self.rank@);
        }
    }

    /// Refreshes every pane's cell metrics from `layouts`, position by
    /// position, recomputing each grid. `layouts` carries one resolved
    /// metrics value per pane, in arena order.
    pub fn update_dimensions(&mut self, layouts: &Vec<SugarDimensions>)
        requires
            old(self).inv(),
            layouts@.len() == old(self).inner@.len(),
            forall|i: int| 0 <= i < layouts@.len() ==> (#[trigger] layouts@[i]).wf(),
        ensures
            final(self).inv(),
            final(self).inner@.len() == old(self).inner@.len(),
            forall|i: int|
                #![trigger final(self).inner@[i]]
                0 <= i < old(self).inner@.len() ==> final(self).inner@[i] == (ContextGridItem {
                    val: Context {
                        dimension: built(
                            old(self).inner@[i].val.dimension.width as int,
                            old(self).inner@[i].val.dimension.height as int,
                            layouts@[i],
                            1,
                            old(self).inner@[i].val.dimension.margin,
                        ),
                        ..old(self).inner@[i].val
                    },
                    ..old(self).inner@[i]
                }),
            *final(self) == (ContextGrid { inner: final(self).inner, ..*old(self) }),
    {
        let mut i: usize = 0;
        while i < self.inner.len()
            invariant
                i <= self.inner@.len(),
                self.inner@.len() == old(self).inner@.len(),
                layouts@.len() == old(self).inner@.len(),
                forall|m: int| 0 <= m < layouts@.len() ==> (#[trigger] layouts@[m]).wf(),
                items_wf(old(self).inner@),
                forall|m: int|
                    #![trigger self.inner@[m]]
                    0 <= m < i ==> self.inner@[m] == (ContextGridItem {
                        val: Context {
                            dimension: built(
                                old(self).inner@[m].val.dimension.width as int,
                                old(self).inner@[m].val.dimension.height as int,
                                layouts@[m],
                                1,
                                old(self).inner@[m].val.dimension.margin,
                            ),
                            ..old(self).inner@[m].val
                        },
                        ..old(self).inner@[m]
                    }),
                forall|m: int|
                    #![trigger self.inner@[m]]
                    i <= m < self.inner@.len() ==> self.inner@[m] == old(self).inner@[m],
                *self == (ContextGrid { inner: self.inner, ..*old(self) }),
            decreases self.inner@.len() - i,
        {
            let mut it = self.inner[i];
            it.val.dimension.update_dimensions(layouts[i]);
            self.inner[i] = it;
            i += 1;
        }
        proof {
            lemma_links_congruent(old(self).inner@, self.inner@, self.rank@);
        }
    }

    fn hit_rec(&self, objects: &Vec<Object>, k: usize, mouse: &Mouse) -> (r: Option<usize>)
        requires
            self.inv(),
            region_positions_ok(objects@),
            k <= objects@.len(),
        ensures
            r == mouse_hit_scan(self.inner@, objects@, k as int, mouse.x as int, mouse.y as int),
            r matches Some(p) ==> p < self.inner@.len(),
        decreases objects@.len() - k,
    {
        if k >= objects.len() {
            return None;
        }
        let arena_len = self.inner.len();
        let obj = objects[k];
        if let Object::RichText(rt) = obj {
            proof {
                assert(self.inner@.len() == arena_len <= usize::MAX);
                lemma_find_id_range(self.inner@, rt.id, 0);
            }
            if let Some(position) = self.find_by_rich_text_id(rt.id) {
                let item = self.inner[position];
                let scale = item.val.dimension.dimension.scale;
                proof {
                    lemma_mul_bound(
                        rt.position.x as int,
                        scale as int,
                        PX_LIMIT as int,
                        SCALE_LIMIT as int,
                    );
                    lemma_mul_bound(
                        rt.position.y as int,
                        scale as int,
                        PX_LIMIT as int,
                        SCALE_LIMIT as int,
                    );
                }
                let scaled_position_x = rt.position.x * scale;
                let scaled_position_y = rt.position.y * scale;
                let end_x = scaled_position_x + item.val.dimension.width;
                let end_y = scaled_position_y + item.val.dimension.height;
                let low_x: u64 = if scaled_position_x < 0 {
                    0
                } else {
                    scaled_position_x as u64
                };
                let low_y: u64 = if scaled_position_y < 0 {
                    0
                } else {
                    scaled_position_y as u64
                };
                let high_x: u64 = if end_x < 0 {
                    0
                } else {
                    end_x as u64
                };
                let high_y: u64 = if end_y < 0 {
                    0
                } else {
                    end_y as u64
                };
                let mouse_x = mouse.x as u64;
                let mouse_y = mouse.y as u64;
                if mouse_x >= low_x && mouse_y >= low_y && mouse_x < high_x && mouse_y < high_y {
                    return Some(position);
                }
            }
        }
        self.hit_rec(objects, k + 1, mouse)
    }

    /// Moves the selection to the first pane, in region-list order, whose
    /// box contains the pointer; a no-op returning `false` when only one
    /// pane exists or no pane contains it.
    pub fn select_current_based_on_mouse(&mut self, mouse: &Mouse) -> (r: bool)
        requires
            old(self).inv(),
        ensures
            final(self).inv(),
            old(self).inner@.len() <= 1 ==> r == false && *final(self) == *old(self),
            old(self).inner@.len() > 1 ==> {
                let hit = mouse_hit_scan(
                    old(self).inner@,
                    old(self).objects_spec(),
                    0,
                    mouse.x as int,
                    mouse.y as int,
                );
                &&& r == (hit is Some)
                &&& *final(self) == (ContextGrid {
                    current: if hit is Some {
                        hit->0
                    } else {
                        old(self).current
                    },
                    ..*old(self)
                })
            },
    {
        let len = self.inner.len();
        if len <= 1 {
            return false;
        }
        let objects = self.objects();
        proof {
            lemma_plot_positions(
                self.inner@,
                first_root(self.inner@),
                self.margin,
                self.border_color,
                self.inner@.len() as nat,
            );
        }
        let hit = self.hit_rec(&objects, 0, mouse);
        if let Some(new_current) = hit {
            self.current = new_current;
            true
        } else {
            false
        }
    }

    fn margin_rec(&self, objects: &Vec<Object>, id: usize, k: usize, base: Delta<i64>) -> (r:
        Delta<i64>)
        requires
            region_positions_ok(objects@),
            k <= objects@.len(),
        ensures
            r == margin_scan(objects@, id, k as int, base),
        decreases objects@.len() - k,
    {
        if k >= objects.len() {
            return base;
        }
        let obj = objects[k];
        if let Object::RichText(rt) = obj {
            if rt.id == id {
                return Delta {
                    x: rt.position.x + PADDING,
                    top_y: rt.position.y + PADDING,
                    bottom_y: base.bottom_y,
                };
            }
        }
        self.margin_rec(objects, id, k + 1, base)
    }

    /// The selected pane together with the effective render offset of its
    /// content: with one pane the outer margin, otherwise the selected
    /// pane's region offset plus a fixed inset on both axes (the bottom
    /// inset carries over from the outer margin).
    pub fn current_context_with_computed_dimension(&self) -> (r: (&Context, Delta<i64>))
        requires
            self.inv(),
        ensures
            *r.0 == self.inner@[self.current as int].val,
            self.inner@.len() <= 1 ==> r.1 == self.margin,
            self.inner@.len() > 1 ==> r.1 == margin_scan(
                self.objects_spec(),
                self.inner@[self.current as int].val.rich_text_id,
                0,
                self.margin,
            ),
    {
        let len = self.inner.len();
        if len <= 1 {
            return (&self.inner[self.current].val, self.margin);
        }
        let objects = self.objects();
        proof {
            lemma_plot_positions(
                self.inner@,
                first_root(self.inner@),
                self.margin,
                self.border_color,
                self.inner@.len() as nat,
            );
        }
        let rich_text_id = self.inner[self.current].val.rich_text_id;
        let margin = self.margin_rec(&objects, rich_text_id, 0, self.margin);
        (&self.inner[self.current].val, margin)
    }

    /// Distributes a size change over the subtree at `index`, writing each
    /// visited node's share into `vector` and returning this node's own.
    fn resize_context(
        &self,
        vector: &mut Vec<(i64, i64)>,
        index: usize,
        available_width: i64,
        available_height: i64,
    ) -> (r: (i64, i64))
        requires
            self.inv(),
            old(vector)@.len() == self.inner@.len(),
            -0x1_0000_0000 <= available_width <= 0x1_0000_0000,
            -0x1_0000_0000 <= available_height <= 0x1_0000_0000,
        ensures
            final(vector)@ == resize_amounts(
                self.inner@,
                index as int,
                available_width as int,
                available_height as int,
                old(vector)@,
                self.inner@.len() as nat,
            ).0,
            (r.0 as int, r.1 as int) == resize_amounts(
                self.inner@,
                index as int,
                available_width as int,
                available_height as int,
                old(vector)@,
                self.inner@.len() as nat,
            ).1,
            final(vector)@.len() == old(vector)@.len(),
            -0x1_0000_0000 <= r.0 <= 0x1_0000_0000,
            -0x1_0000_0000 <= r.1 <= 0x1_0000_0000,
        decreases self.plot_measure(index as int),
    {
        let ghost fuel = self.inner@.len() as nat;
        if index >= self.inner.len() {
            return (available_width, available_height);
        }
        let item = self.inner[index];
        let mut current_available_width = available_width;
        let mut current_available_height = available_height;
        if let Some(right_item) = item.right {
            let halved = div_trunc_i64(available_width, 2);
            let sub = self.resize_context(vector, right_item, halved, available_height);
            current_available_width = sub.0;
            proof {
                lemma_resize_fuel(
                    self.inner@,
                    self.rank@,
                    right_item as int,
                    halved as int,
                    available_height as int,
                    old(vector)@,
                    fuel,
                    (fuel - 1) as nat,
                );
            }
        }
        if let Some(down_item) = item.down {
            let halved = div_trunc_i64(available_height, 2);
            let ghost acc1 = vector@;
            let sub = self.resize_context(vector, down_item, available_width, halved);
            current_available_height = sub.1;
            proof {
                lemma_resize_fuel(
                    self.inner@,
                    self.rank@,
                    down_item as int,
                    available_width as int,
                    halved as int,
                    acc1,
                    fuel,
                    (fuel - 1) as nat,
                );
            }
        }
        vector[index] = (current_available_width, current_available_height);
        (current_available_width, current_available_height)
    }

    /// Resizes the whole box to (`new_width`, `new_height`), distributing
    /// the difference over the tree from the structural root: each split
    /// axis divides the change evenly among its descendants, approximating
    /// proportional rescaling without stored weights. Every pane's grid is
    /// recomputed.
    pub fn resize(&mut self, new_width: i64, new_height: i64)
        requires
            old(self).inv(),
        ensures
            final(self).inv(),
            final(self).width as int == px_clamped(new_width as int),
            final(self).height as int == px_clamped(new_height as int),
            final(self).inner@ == resized_items(
                old(self).inner@,
                first_root(old(self).inner@),
                px_clamped(new_width as int) - old(self).width,
                px_clamped(new_height as int) - old(self).height,
            ),
            *final(self) == (ContextGrid {
                inner: final(self).inner,
                width: final(self).width,
                height: final(self).height,
                ..*old(self)
            }),
    {
        let width_difference = clamp_px(new_width) - self.width;
        let height_difference = clamp_px(new_height) - self.height;
        self.width = clamp_px(new_width);
        self.height = clamp_px(new_height);

        let len = self.inner.len();
        let mut vector: Vec<(i64, i64)> = Vec::new();
        while vector.len() < len
            invariant
                vector@.len() <= len,
                forall|m: int| 0 <= m < vector@.len() ==> vector@[m] == (0i64, 0i64),
            decreases len - vector@.len(),
        {
            vector.push((0, 0));
        }
        proof {
            assert(vector@ =~= zero_amounts(len as nat));
        }
        let root = self.find_root_from(0);
        self.resize_context(&mut vector, root, width_difference, height_difference);
        let ghost amounts = resize_amounts(
            self.inner@,
            root as int,
            width_difference as int,
            height_difference as int,
            zero_amounts(len as nat),
            len as nat,
        ).0;
        assert(vector@ == amounts);

        let mut index: usize = 0;
        while index < len
            invariant
                index <= len,
                len == self.inner@.len(),
                len == old(self).inner@.len(),
                vector@ == amounts,
                vector@.len() == len,
                items_wf(old(self).inner@),
                forall|m: int|
                    #![trigger self.inner@[m]]
                    0 <= m < index ==> self.inner@[m] == (ContextGridItem {
                        val: Context {
                            dimension: built(
                                old(self).inner@[m].val.dimension.width + amounts[m].0 as int,
                                old(self).inner@[m].val.dimension.height + amounts[m].1 as int,
                                old(self).inner@[m].val.dimension.dimension,
                                1,
                                old(self).inner@[m].val.dimension.margin,
                            ),
                            ..old(self).inner@[m].val
                        },
                        ..old(self).inner@[m]
                    }),
                forall|m: int|
                    #![trigger self.inner@[m]]
                    index <= m < len ==> self.inner@[m] == old(self).inner@[m],
                *self == (ContextGrid {
                    inner: self.inner,
                    width: self.width,
                    height: self.height,
                    ..*old(self)
                }),
                self.width as int == px_clamped(new_width as int),
                self.height as int == px_clamped(new_height as int),
            decreases len - index,
        {
            let val = vector[index];
            let mut it = self.inner[index];
            it.val.dimension.increase_width(val.0);
            it.val.dimension.increase_height(val.1);
            self.inner[index] = it;
            index += 1;
        }
        proof {
            lemma_links_congruent(old(self).inner@, self.inner@, self.rank@);
            assert(self.inner@ =~= resized_items(
                old(self).inner@,
                root as int,
                width_difference as int,
                height_difference as int,
            ));
        }
    }

    /// Finds the node at or after `k` whose right or down link is `c`, and
    /// whether the match was the right link.
    fn parent_rec(&self, c: usize, k: usize) -> (r: Option<(bool, usize)>)
        requires
            k <= self.inner@.len(),
        ensures
            r == parent_scan(self.inner@, c as int, k as int),
        decreases self.inner@.len() - k,
    {
        if k >= self.inner.len() {
            None
        } else {
            let hit_right = match self.inner[k].right {
                Some(v) => v == c,
                None => false,
            };
            if hit_right {
                return Some((true, k));
            }
            let hit_down = match self.inner[k].down {
                Some(v) => v == c,
                None => false,
            };
            if hit_down {
                Some((false, k))
            } else {
                self.parent_rec(c, k + 1)
            }
        }
    }

    /// Deletes the node at `index` and compacts: every stored link above
    /// `index` is decremented by one, then the arena entry is removed.
    fn remove_index(&mut self, index: usize)
        requires
            index < old(self).inner@.len(),
        ensures
            final(self).inner@ == compacted(old(self).inner@, index as int),
            *final(self) == (ContextGrid { inner: final(self).inner, ..*old(self) }),
    {
        let ghost orig = self.inner@;
        let mut i: usize = 0;
        while i < self.inner.len()
            invariant
                i <= self.inner@.len(),
                self.inner@.len() == orig.len(),
                index < orig.len(),
                forall|m: int|
                    #![trigger self.inner@[m]]
                    0 <= m < i ==> self.inner@[m] == (ContextGridItem {
                        right: compact_link(orig[m].right, index as int),
                        down: compact_link(orig[m].down, index as int),
                        ..orig[m]
                    }),
                forall|m: int|
                    #![trigger self.inner@[m]]
                    i <= m < orig.len() ==> self.inner@[m] == orig[m],
                *self == (ContextGrid { inner: self.inner, ..*old(self) }),
            decreases orig.len() - i,
        {
            let mut it = self.inner[i];
            if let Some(right_val) = it.right {
                if right_val > index {
                    it.right = Some(right_val - 1);
                }
            }
            if let Some(down_val) = it.down {
                if down_val > index {
                    it.down = Some(down_val - 1);
                }
            }
            self.inner[i] = it;
            i += 1;
        }
        proof {
            assert(self.inner@ =~= orig.map_values(
                |it: ContextGridItem|
                    ContextGridItem {
                        right: compact_link(it.right, index as int),
                        down: compact_link(it.down, index as int),
                        ..it
                    },
            ));
        }
        self.inner.remove(index);
        proof {
            assert(self.inner@ =~= compacted(orig, index as int));
        }
    }

    /// Removes the selected pane, handing its space to a neighbor as
    /// `remove_current_spec` says, compacting all higher indices down by
    /// one and keeping the selection on a valid pane. At least two panes
    /// must exist: removing the last pane is the caller's error.
    #[verifier::rlimit(100)]
    pub fn remove_current(&mut self)
        requires
            old(self).inv(),
            old(self).inner@.len() >= 2,
        ensures
            final(self).inv(),
            final(self).inner@ == remove_current_spec(
                old(self).inner@,
                old(self).current as int,
            ).0,
            final(self).current as int == remove_current_spec(
                old(self).inner@,
                old(self).current as int,
            ).1,
            final(self).inner@.len() == old(self).inner@.len() - 1,
            *final(self) == (ContextGrid {
                inner: final(self).inner,
                current: final(self).current,
                rank: final(self).rank,
                ..*old(self)
            }),
    {
        let ghost items0 = self.inner@;
        let ghost rank0 = self.rank@;
        let arena_len = self.inner.len();
        proof {
            assert(items0.len() == arena_len <= usize::MAX);
        }
        let cur = self.current;
        let to_be_removed_width = self.inner[cur].val.dimension.width;
        let to_be_removed_height = self.inner[cur].val.dimension.height;
        let parent_context = self.parent_rec(cur, 0);
        proof {
            lemma_parent_scan(items0, cur as int, 0);
        }

        let next_current: usize;
        if let Some((is_right, parent_index)) = parent_context {
            proof {
                assert(is_edge(items0, parent_index as int, cur as int));
                assert(rank0[parent_index as int] < rank0[cur as int]);
            }
            if is_right {
                if let Some(current_down) = self.inner[cur].down {
                    proof {
                        assert(is_edge(items0, cur as int, current_down as int));
                        assert(rank0[cur as int] < rank0[current_down as int]);
                    }
                    let mut down_item = self.inner[current_down];
                    down_item.val.dimension.increase_height(to_be_removed_height + PADDING);
                    self.inner[current_down] = down_item;
                    let mut parent_item = self.inner[parent_index];
                    parent_item.right = Some(current_down);
                    self.inner[parent_index] = parent_item;
                    next_current = if current_down > cur {
                        current_down - 1
                    } else {
                        current_down
                    };
                    proof {
                        lemma_remove_mid_parent(
                            items0,
                            rank0,
                            self.inner@,
                            cur as int,
                            parent_index as int,
                            true,
                        );
                    }
                } else {
                    let mut parent_item = self.inner[parent_index];
                    parent_item.val.dimension.increase_width(to_be_removed_width + PADDING);
                    parent_item.right = self.inner[cur].right;
                    self.inner[parent_index] = parent_item;
                    next_current = if parent_index > cur {
                        parent_index - 1
                    } else {
                        parent_index
                    };
                    proof {
                        if items0[cur as int].right is Some {
                            assert(is_edge(items0, cur as int, items0[cur as int].right->0 as int));
                        }
                        lemma_remove_mid_parent(
                            items0,
                            rank0,
                            self.inner@,
                            cur as int,
                            parent_index as int,
                            true,
                        );
                    }
                }
            } else {
                if let Some(current_right) = self.inner[cur].right {
                    proof {
                        assert(is_edge(items0, cur as int, current_right as int));
                        assert(rank0[cur as int] < rank0[current_right as int]);
                    }
                    let mut right_item = self.inner[current_right];
                    right_item.val.dimension.increase_width(to_be_removed_width + PADDING);
                    self.inner[current_right] = right_item;
                    let mut parent_item = self.inner[parent_index];
                    parent_item.down = Some(current_right);
                    self.inner[parent_index] = parent_item;
                    next_current = if current_right > cur {
                        current_right - 1
                    } else {
                        current_right
                    };
                    proof {
                        lemma_remove_mid_parent(
                            items0,
                            rank0,
                            self.inner@,
                            cur as int,
                            parent_index as int,
                            false,
                        );
                    }
                } else {
                    let mut parent_item = self.inner[parent_index];
                    parent_item.val.dimension.increase_height(to_be_removed_height + PADDING);
                    parent_item.down = self.inner[cur].down;
                    self.inner[parent_index] = parent_item;
                    next_current = if parent_index > cur {
                        parent_index - 1
                    } else {
                        parent_index
                    };
                    proof {
                        if items0[cur as int].down is Some {
                            assert(is_edge(items0, cur as int, items0[cur as int].down->0 as int));
                        }
                        lemma_remove_mid_parent(
                            items0,
                            rank0,
                            self.inner@,
                            cur as int,
                            parent_index as int,
                            false,
                        );
                    }
                }
            }
        } else {
            if let Some(right_val) = self.inner[cur].right {
                proof {
                    assert(is_edge(items0, cur as int, right_val as int));
                    assert(rank0[cur as int] < rank0[right_val as int]);
                }
                let mut right_item = self.inner[right_val];
                right_item.val.dimension.increase_width(to_be_removed_width + PADDING);
                self.inner[right_val] = right_item;
            } else if let Some(down_val) = self.inner[cur].down {
                proof {
                    assert(is_edge(items0, cur as int, down_val as int));
                    assert(rank0[cur as int] < rank0[down_val as int]);
                }
                let mut down_item = self.inner[down_val];
                down_item.val.dimension.increase_height(to_be_removed_height + PADDING);
                self.inner[down_val] = down_item;
            }
            let len = self.inner.len();
            if self.inner[cur].right.is_some() || self.inner[cur].down.is_some() {
                next_current = if cur < len - 1 {
                    cur
                } else {
                    len - 2
                };
            } else {
                next_current = if cur == 0 {
                    len - 2
                } else {
                    cur - 1
                };
            }
            proof {
                lemma_remove_mid_root(items0, rank0, self.inner@, cur as int);
            }
        }

        let ghost items_mid = self.inner@;
        self.remove_index(cur);
        self.current = next_current;
        proof {
            self.rank@ = remove_rank(rank0, cur as int);
            lemma_rank_remove(items_mid, rank0, cur as int);
            assert(self.inner@ == remove_current_spec(items0, cur as int).0);
            assert(items_wf(self.inner@));
        }
    }
}

/// A single-pane tree's region list holds exactly one region, positioned at
/// the outer margin, and no separator.
pub proof fn lemma_single_pane_regions(g: ContextGrid)
    requires
        g.inv(),
        g.inner@.len() == 1,
    ensures
        g.objects_spec().len() == 1,
        g.objects_spec()[0] == Object::RichText(
            RichText {
                id: g.inner@[0].val.rich_text_id,
                position: Position { x: g.margin.x, y: g.margin.top_y },
            },
        ),
{
}

/// In a single-pane grid the one node carries no links: any link would land
/// on the node itself, which the topological numbering rules out.
proof fn lemma_single_pane_no_links(g: ContextGrid)
    requires
        g.inv(),
        g.inner@.len() == 1,
    ensures
        g.inner@[0].right is None,
        g.inner@[0].down is None,
{
    if g.inner@[0].right is Some {
        assert(g.rank@[0] < g.rank@[g.inner@[0].right->0 as int]);
    }
    if g.inner@[0].down is Some {
        assert(g.rank@[0] < g.rank@[g.inner@[0].down->0 as int]);
    }
}

/// After a right split of a single-pane grid the region list has exactly
/// three entries in order: the original pane's region at the outer margin, a
/// separator one gap left of the new pane, and the new pane's region. The
/// new pane's horizontal offset is the original pane's new (halved,
/// gap-reduced) width in unscaled pixels, plus the gap, past the outer
/// margin.
pub proof fn lemma_split_right_region_list(g: ContextGrid, c: Context, g2: ContextGrid)
    requires
        g.inv(),
        g.inner@.len() == 1,
        g2.inner@ == split_right_items(g.inner@, g.current as int, c),
        g2.margin == g.margin,
        g2.border_color == g.border_color,
    ensures
        ({
            let old_item = g.inner@[0];
            let w = old_item.val.dimension.width as int;
            let scale = old_item.val.dimension.dimension.scale as int;
            let cur_w = px_clamped(div_trunc(w, 2) - PADDING);
            let new_x = px_clamped(g.margin.x + PADDING + div_trunc(cur_w, scale));
            let objs = g2.objects_spec();
            &&& objs.len() == 3
            &&& objs[0] == Object::RichText(
                RichText {
                    id: old_item.val.rich_text_id,
                    position: Position { x: g.margin.x, y: g.margin.top_y },
                },
            )
            &&& objs[1] == Object::Rect(
                Rect {
                    position: Position { x: (new_x - PADDING) as i64, y: g.margin.top_y },
                    color: g.border_color,
                    size: Size {
                        width: div_trunc(2, scale) as i64,
                        height: px_clamped(old_item.val.dimension.height as int) as i64,
                    },
                },
            )
            &&& objs[2] == Object::RichText(
                RichText {
                    id: c.rich_text_id,
                    position: Position { x: new_x as i64, y: g.margin.top_y },
                },
            )
        }),
{
    lemma_single_pane_no_links(g);
    let items2 = g2.inner@;
    assert forall|i: int| !is_edge(items2, i, 0) by {
        if 0 <= i < items2.len() {
            assert(items2[i].right != Some(0usize) && items2[i].down != Some(0usize));
        }
    }
    assert(!has_parent(items2, 0));
    assert(first_root(items2) == 0);
    let objs = g2.objects_spec();
    let nm = right_child_margin(items2[0], g.margin);
    assert(objs == plot_spec(items2, 0, g.margin, g.border_color, 2));
    assert(plot_spec(items2, 1, nm, g.border_color, 1) == seq![region_obj(items2[1], nm)]);
    assert(objs =~= seq![region_obj(items2[0], g.margin)] + (seq![
        right_separator(items2[0], nm, g.border_color),
    ] + seq![region_obj(items2[1], nm)]));
}

/// Removing a right child that has no children of its own: the arena
/// shrinks by one, the selection moves to the parent (at its compacted
/// position), the parent reclaims the removed pane's width plus the gap,
/// and takes over the removed pane's right link.
pub proof fn lemma_remove_childless_right(g: ContextGrid)
    requires
        g.inv(),
        g.inner@.len() >= 2,
        parent_scan(g.inner@, g.current as int, 0) matches Some((true, _p)),
        g.inner@[g.current as int].down is None,
    ensures
        ({
            let cur = g.current as int;
            let p = (parent_scan(g.inner@, cur, 0)->0).1 as int;
            let result = remove_current_spec(g.inner@, cur);
            let new_p = adjusted(p, cur);
            &&& result.0.len() == g.inner@.len() - 1
            &&& result.1 == new_p
            &&& result.0[new_p].val.dimension.width as int == px_clamped(
                g.inner@[p].val.dimension.width + g.inner@[cur].val.dimension.width + PADDING,
            )
            &&& result.0[new_p].val.dimension.height == g.inner@[p].val.dimension.height
            &&& result.0[new_p].right == compact_link(g.inner@[cur].right, cur)
        }),
{
    let cur = g.current as int;
    vstd::std_specs::vec::axiom_spec_len(&g.inner);
    lemma_parent_scan(g.inner@, cur, 0);
    let p = (parent_scan(g.inner@, cur, 0)->0).1 as int;
    assert(is_edge(g.inner@, p, cur));
    assert(g.rank@[p] < g.rank@[cur]);
    let items1 = g.inner@.update(
        p,
        item_with_right(
            item_with_increased_width(g.inner@[p], g.inner@[cur].val.dimension.width + PADDING),
            g.inner@[cur].right,
        ),
    );
    lemma_compact_shape(g.inner@, g.rank@, cur);
    assert(compacted(items1, cur)[adjusted(p, cur)] == (ContextGridItem {
        right: compact_link(items1[p].right, cur),
        down: compact_link(items1[p].down, cur),
        ..items1[p]
    })) by {
        assert forall|i: int| #![trigger compacted(items1, cur)[i]] 0 <= i < items1.len() - 1 implies {
            let oi = if i < cur { i } else { i + 1 };
            compacted(items1, cur)[i] == (ContextGridItem {
                right: compact_link(items1[oi].right, cur),
                down: compact_link(items1[oi].down, cur),
                ..items1[oi]
            })
        } by {}
    }
}

/// A split only redistributes the selected pane's own box: every other
/// pane keeps its node — pane, geometry and links — exactly as it was.
pub proof fn lemma_split_preserves_others(items: Seq<ContextGridItem>, cur: int, c: Context)
    requires
        0 <= cur < items.len(),
    ensures
        forall|i: int|
            0 <= i < items.len() && i != cur ==> #[trigger] split_right_items(items, cur, c)[i]
                == items[i],
        forall|i: int|
            0 <= i < items.len() && i != cur ==> #[trigger] split_down_items(items, cur, c)[i]
                == items[i],
{
}

/// Removing a pane with no parent and no children: the arena shrinks by
/// one, the selection moves to the previous pane in cyclic arena order (at
/// its compacted position), and every remaining pane keeps its geometry —
/// there is no neighbor to hand space to.
pub proof fn lemma_remove_detached_leaf(g: ContextGrid)
    requires
        g.inv(),
        g.inner@.len() >= 2,
        parent_scan(g.inner@, g.current as int, 0) is None,
        g.inner@[g.current as int].right is None,
        g.inner@[g.current as int].down is None,
    ensures
        ({
            let cur = g.current as int;
            let n = g.inner@.len() as int;
            let result = remove_current_spec(g.inner@, cur);
            &&& result.0.len() == n - 1
            &&& result.1 == adjusted(if cur == 0 { n - 1 } else { cur - 1 }, cur)
            &&& forall|i: int|
                #![trigger result.0[i]]
                0 <= i < n - 1 ==> result.0[i].val == g.inner@[if i < cur { i } else { i + 1 }].val
        }),
{
    let cur = g.current as int;
    lemma_compact_shape(g.inner@, g.rank@, cur);
}

/// Removing a right child that itself has a down child: the down child
/// inherits the removed pane's height plus the gap added to its own height,
/// becomes the parent's new right link at its compaction-adjusted index,
/// and becomes selected.
pub proof fn lemma_remove_right_with_down_child(g: ContextGrid)
    requires
        g.inv(),
        g.inner@.len() >= 2,
        parent_scan(g.inner@, g.current as int, 0) matches Some((true, _p)),
        g.inner@[g.current as int].down is Some,
    ensures
        ({
            let cur = g.current as int;
            let p = (parent_scan(g.inner@, cur, 0)->0).1 as int;
            let d = g.inner@[cur].down->0 as int;
            let result = remove_current_spec(g.inner@, cur);
            let new_d = adjusted(d, cur);
            &&& result.0.len() == g.inner@.len() - 1
            &&& result.1 == new_d
            &&& result.0[new_d].val.dimension.height as int == px_clamped(
                g.inner@[d].val.dimension.height + g.inner@[cur].val.dimension.height + PADDING,
            )
            &&& result.0[new_d].val.dimension.width == g.inner@[d].val.dimension.width
            &&& result.0[adjusted(p, cur)].right == Some(new_d as usize)
        }),
{
    let cur = g.current as int;
    vstd::std_specs::vec::axiom_spec_len(&g.inner);
    lemma_parent_scan(g.inner@, cur, 0);
    let p = (parent_scan(g.inner@, cur, 0)->0).1 as int;
    let d = g.inner@[cur].down->0 as int;
    assert(is_edge(g.inner@, p, cur));
    assert(is_edge(g.inner@, cur, d));
    assert(g.rank@[p] < g.rank@[cur]);
    assert(g.rank@[cur] < g.rank@[d]);
    let items1 = g.inner@.update(
        d,
        item_with_increased_height(
            g.inner@[d],
            g.inner@[cur].val.dimension.height + PADDING,
        ),
    );
    let items2 = items1.update(p, item_with_right(items1[p], Some(d as usize)));
    lemma_compact_shape(g.inner@, g.rank@, cur);
    assert forall|i: int| #![trigger compacted(items2, cur)[i]] 0 <= i < items2.len() - 1 implies {
        let oi = if i < cur { i } else { i + 1 };
        compacted(items2, cur)[i] == (ContextGridItem {
            right: compact_link(items2[oi].right, cur),
            down: compact_link(items2[oi].down, cur),
            ..items2[oi]
        })
    } by {}
    assert(d != cur && p != cur && p != d);
    assert(0 <= adjusted(d, cur) < items2.len() - 1);
    assert(0 <= adjusted(p, cur) < items2.len() - 1);
}

/// Splitting the selected pane to the right and immediately removing the
/// new pane restores the original grid exactly: the arena, every pane's
/// geometry (the halving plus gap is fully reclaimed) and the selection.
/// Holds whenever the selected pane's width is even; with an odd width the
/// halving truncates and one pixel is lost.
pub proof fn lemma_split_right_remove_round_trip(g: ContextGrid, c: Context)
    requires
        g.inv(),
        g.inner@.len() < usize::MAX,
        g.inner@[g.current as int].val.dimension.width % 2 == 0,
    ensures
        remove_current_spec(
            split_right_items(g.inner@, g.current as int, c),
            g.inner@.len() as int,
        ).0 =~= g.inner@,
        remove_current_spec(
            split_right_items(g.inner@, g.current as int, c),
            g.inner@.len() as int,
        ).1 == g.current as int,
{
    let cur = g.current as int;
    let n = g.inner@.len() as int;
    let items1 = split_right_items(g.inner@, cur, c);
    let w = g.inner@[cur].val.dimension.width as int;
    assert(div_trunc(w, 2) * 2 == w) by {
        if w >= 0 {
            assert(w / 2 * 2 == w) by (nonlinear_arith)
                requires
                    w % 2 == 0,
                    w >= 0,
            ;
        } else {
            assert((-w) / 2 * 2 == -w) by (nonlinear_arith)
                requires
                    w % 2 == 0,
                    w < 0,
            ;
        }
    }
    // the scan finds the split pane as the new pane's parent
    vstd::std_specs::vec::axiom_spec_len(&g.inner);
    lemma_parent_scan_hits(items1, n, cur);
    assert(parent_scan(items1, n, 0) == Some((true, cur as usize)));
    assert(items1[n].down is None);
    let items2 = items1.update(
        cur,
        item_with_right(
            item_with_increased_width(items1[cur], items1[n].val.dimension.width + PADDING),
            items1[n].right,
        ),
    );
    assert(remove_current_spec(items1, n).0 == compacted(items2, n));
    assert(remove_current_spec(items1, n).1 == adjusted(cur, n) == cur);
    assert forall|i: int| #![trigger compacted(items2, n)[i]] 0 <= i < n implies compacted(
        items2,
        n,
    )[i] == g.inner@[i] by {
        assert(compacted(items2, n)[i] == (ContextGridItem {
            right: compact_link(items2[i].right, n),
            down: compact_link(items2[i].down, n),
            ..items2[i]
        }));
        if i != cur {
            assert(items2[i] == g.inner@[i]);
            assert(items2[i].right is Some ==> items2[i].right->0 < n);
            assert(items2[i].down is Some ==> items2[i].down->0 < n);
        } else {
            let old_dim = g.inner@[cur].val.dimension;
            assert(items2[cur].val.dimension == built(
                px_clamped(div_trunc(w, 2) - PADDING) + px_clamped(div_trunc(w, 2)) + PADDING,
                old_dim.height as int,
                old_dim.dimension,
                1,
                old_dim.margin,
            ));
            assert(px_clamped(div_trunc(w, 2) - PADDING) == div_trunc(w, 2) - PADDING);
            assert(px_clamped(div_trunc(w, 2)) == div_trunc(w, 2));
            assert(items2[cur].val.dimension == built(
                w,
                old_dim.height as int,
                old_dim.dimension,
                1,
                old_dim.margin,
            ));
            assert(built(w, old_dim.height as int, old_dim.dimension, 1, old_dim.margin)
                == old_dim);
            assert(items2[cur].right == g.inner@[cur].right);
            assert(g.inner@[cur].right is Some ==> g.inner@[cur].right->0 < n);
            assert(g.inner@[cur].down is Some ==> g.inner@[cur].down->0 < n);
        }
    }
}

/// Splitting the selected pane downward and immediately removing the new
/// pane restores the original grid exactly, the vertical mirror image of
/// the right-split round trip. Holds whenever the selected pane's height is
/// even.
pub proof fn lemma_split_down_remove_round_trip(g: ContextGrid, c: Context)
    requires
        g.inv(),
        g.inner@.len() < usize::MAX,
        g.inner@[g.current as int].val.dimension.height % 2 == 0,
    ensures
        remove_current_spec(
            split_down_items(g.inner@, g.current as int, c),
            g.inner@.len() as int,
        ).0 =~= g.inner@,
        remove_current_spec(
            split_down_items(g.inner@, g.current as int, c),
            g.inner@.len() as int,
        ).1 == g.current as int,
{
    let cur = g.current as int;
    let n = g.inner@.len() as int;
    let items1 = split_down_items(g.inner@, cur, c);
    let h = g.inner@[cur].val.dimension.height as int;
    assert(div_trunc(h, 2) * 2 == h) by {
        if h >= 0 {
            assert(h / 2 * 2 == h) by (nonlinear_arith)
                requires
                    h % 2 == 0,
                    h >= 0,
            ;
        } else {
            assert((-h) / 2 * 2 == -h) by (nonlinear_arith)
                requires
                    h % 2 == 0,
                    h < 0,
            ;
        }
    }
    // the scan finds the split pane as the new pane's parent, on its down link
    vstd::std_specs::vec::axiom_spec_len(&g.inner);
    assert(items1[cur].right is Some ==> items1[cur].right->0 as int != n);
    lemma_parent_scan_hits_down(items1, n, cur);
    assert(parent_scan(items1, n, 0) == Some((false, cur as usize)));
    assert(items1[n].right is None);
    let items2 = items1.update(
        cur,
        item_with_down(
            item_with_increased_height(items1[cur], items1[n].val.dimension.height + PADDING),
            items1[n].down,
        ),
    );
    assert(remove_current_spec(items1, n).0 == compacted(items2, n));
    assert(remove_current_spec(items1, n).1 == adjusted(cur, n) == cur);
    assert forall|i: int| #![trigger compacted(items2, n)[i]] 0 <= i < n implies compacted(
        items2,
        n,
    )[i] == g.inner@[i] by {
        assert(compacted(items2, n)[i] == (ContextGridItem {
            right: compact_link(items2[i].right, n),
            down: compact_link(items2[i].down, n),
            ..items2[i]
        }));
        if i != cur {
            assert(items2[i] == g.inner@[i]);
            assert(items2[i].right is Some ==> items2[i].right->0 < n);
            assert(items2[i].down is Some ==> items2[i].down->0 < n);
        } else {
            let old_dim = g.inner@[cur].val.dimension;
            assert(items2[cur].val.dimension == built(
                old_dim.width as int,
                px_clamped(div_trunc(h, 2) - PADDING) + px_clamped(div_trunc(h, 2)) + PADDING,
                old_dim.dimension,
                1,
                old_dim.margin,
            ));
            assert(px_clamped(div_trunc(h, 2) - PADDING) == div_trunc(h, 2) - PADDING);
            assert(px_clamped(div_trunc(h, 2)) == div_trunc(h, 2));
            assert(items2[cur].val.dimension == built(
                old_dim.width as int,
                h,
                old_dim.dimension,
                1,
                old_dim.margin,
            ));
            assert(built(old_dim.width as int, h, old_dim.dimension, 1, old_dim.margin)
                == old_dim);
            assert(items2[cur].down == g.inner@[cur].down);
            assert(g.inner@[cur].right is Some ==> g.inner@[cur].right->0 < n);
            assert(g.inner@[cur].down is Some ==> g.inner@[cur].down->0 < n);
        }
    }
}

/// A parent scan run where no node before `p` links to `c` and `p`'s right
/// link is `c` answers exactly `(right, p)`.
proof fn lemma_parent_scan_hits(items: Seq<ContextGridItem>, c: int, p: int)
    requires
        0 <= p < items.len(),
        items.len() <= usize::MAX,
        items[p].right is Some && items[p].right->0 as int == c,
        forall|i: int| 0 <= i < p ==> !is_edge(items, i, c),
    ensures
        parent_scan(items, c, 0) == Some((true, p as usize)),
{
    lemma_parent_scan_hits_from(items, c, p, 0);
}

proof fn lemma_parent_scan_hits_from(items: Seq<ContextGridItem>, c: int, p: int, k: int)
    requires
        0 <= k <= p < items.len(),
        items.len() <= usize::MAX,
        items[p].right is Some && items[p].right->0 as int == c,
        forall|i: int| k <= i < p ==> !is_edge(items, i, c),
    ensures
        parent_scan(items, c, k) == Some((true, p as usize)),
    decreases p - k,
{
    if k < p {
        assert(!is_edge(items, k, c));
        lemma_parent_scan_hits_from(items, c, p, k + 1);
    }
}

/// A parent scan run where no node before `p` links to `c`, `p`'s right
/// link is not `c`, and `p`'s down link is `c` answers exactly `(down, p)`.
proof fn lemma_parent_scan_hits_down(items: Seq<ContextGridItem>, c: int, p: int)
    requires
        0 <= p < items.len(),
        items.len() <= usize::MAX,
        items[p].right is Some ==> items[p].right->0 as int != c,
        items[p].down is Some && items[p].down->0 as int == c,
        forall|i: int| 0 <= i < p ==> !is_edge(items, i, c),
    ensures
        parent_scan(items, c, 0) == Some((false, p as usize)),
{
    lemma_parent_scan_hits_down_from(items, c, p, 0);
}

proof fn lemma_parent_scan_hits_down_from(items: Seq<ContextGridItem>, c: int, p: int, k: int)
    requires
        0 <= k <= p < items.len(),
        items.len() <= usize::MAX,
        items[p].right is Some ==> items[p].right->0 as int != c,
        items[p].down is Some && items[p].down->0 as int == c,
        forall|i: int| k <= i < p ==> !is_edge(items, i, c),
    ensures
        parent_scan(items, c, k) == Some((false, p as usize)),
    decreases p - k,
{
    if k < p {
        assert(!is_edge(items, k, c));
        lemma_parent_scan_hits_down_from(items, c, p, k + 1);
    }
}

} // verus!
