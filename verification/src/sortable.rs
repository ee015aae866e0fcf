//! The drag-to-reorder widget's logic: which item a press lands on, the
//! vertical midpoints the drag is measured against, how the other items
//! shift while one is dragged, and the new order when it is released —
//! the items sorted by midpoint, ties keeping their old relative order.

use vstd::prelude::*;

verus! {

/// The widget's props: the labels of the reorderable items.
#[derive(PartialEq, Eq)]
pub struct SortableProps {
    pub items: Vec<String>,
}

/// The one message the widget reacts to: a new order of the item indices.
pub enum SortableMsg {
    ChangeOrder(Vec<usize>),
}

/// The widget's state: the current order of the item indices, and a
/// counter bumped on each reorder so the view is rebuilt.
pub struct Sortable {
    pub order: Vec<usize>,
    pub reload_id: usize,
}

/// The identity order of `n` items.
pub fn identity_order(n: usize) -> (r: Vec<usize>)
    ensures
        r@.len() == n,
        forall|i: int| 0 <= i < n ==> r@[i] == i,
{
    let mut r: Vec<usize> = Vec::new();
    let mut i: usize = 0;
    while i < n
        invariant
            0 <= i <= n,
            r@.len() == i,
            forall|j: int| 0 <= j < i ==> r@[j] == j,
        decreases n - i,
    {
        r.push(i);
        i = i + 1;
    }
    r
}

impl Sortable {
    /// A fresh widget over `n` items, in their given order.
    pub fn new(n: usize) -> (r: Sortable)
        ensures
            r.order@.len() == n,
            forall|i: int| 0 <= i < n ==> r.order@[i] == i,
            r.reload_id == 0,
    {
        Sortable { order: identity_order(n), reload_id: 0 }
    }

    /// Takes a new order and bumps the reload counter; the view is
    /// rebuilt.
    pub fn update(&mut self, msg: SortableMsg) -> (refresh: bool)
        requires
            old(self).reload_id < usize::MAX,
        ensures
            refresh == true,
            match msg {
                SortableMsg::ChangeOrder(order) => final(self).order == order
                    && final(self).reload_id == old(self).reload_id + 1,
            },
    {
        match msg {
            SortableMsg::ChangeOrder(order) => {
                self.order = order;
                self.reload_id = self.reload_id + 1;
                true
            },
        }
    }
}

/// A box on the screen, as the drag logic reads it.
#[derive(Clone, Copy, PartialEq, Eq, Structural, Debug)]
pub struct Rect {
    pub left: i32,
    pub right: i32,
    pub top: i32,
    pub bottom: i32,
}

/// Screen coordinates stay far from the integer bounds; the sums below
/// then fit.
pub open spec fn coord_bounded(x: i32) -> bool {
    -1000000000 <= x <= 1000000000
}

/// Whether the point lies inside the box, borders included.
pub open spec fn rect_contains(r: Rect, x: i32, y: i32) -> bool {
    r.left <= x <= r.right && r.top <= y <= r.bottom
}

/// Half of `x`, rounded toward zero, as the widget's pixel arithmetic
/// rounds.
pub open spec fn spec_half_toward_zero(x: int) -> int {
    if x >= 0 {
        x / 2
    } else {
        -((-x) / 2)
    }
}

/// The midpoint of `a` and `b`, rounded toward zero.
pub fn midpoint(a: i32, b: i32) -> (r: i32)
    requires
        coord_bounded(a),
        coord_bounded(b),
    ensures
        r == spec_half_toward_zero(a + b),
{
    let s = a + b;
    if s >= 0 {
        ((s as u32) / 2) as i32
    } else {
        let q = ((-(s as i64)) as u64 / 2) as i32;
        -q
    }
}

/// The item a press at `(x, y)` lands on: the last box containing the
/// point, as the widget scans them all.
pub fn find_dragged(rects: &Vec<Rect>, x: i32, y: i32) -> (r: Option<usize>)
    ensures
        match r {
            Some(i) => 0 <= i < rects@.len() && rect_contains(rects@[i as int], x, y) && (forall|
                j: int,
            |
                i < j < rects@.len() ==> !rect_contains(#[trigger] rects@[j], x, y)),
            None => forall|j: int| 0 <= j < rects@.len() ==> !rect_contains(#[trigger] rects@[j], x, y),
        },
{
    let mut dragged: Option<usize> = None;
    let mut i: usize = 0;
    while i < rects.len()
        invariant
            0 <= i <= rects@.len(),
            match dragged {
                Some(d) => 0 <= d < i && rect_contains(rects@[d as int], x, y) && (forall|j: int|
                    d < j < i ==> !rect_contains(#[trigger] rects@[j], x, y)),
                None => forall|j: int| 0 <= j < i ==> !rect_contains(#[trigger] rects@[j], x, y),
            },
        decreases rects@.len() - i,
    {
        let r = rects[i];
        if x >= r.left && x <= r.right && y >= r.top && y <= r.bottom {
            dragged = Some(i);
        }
        i = i + 1;
    }
    dragged
}

/// The vertical midpoint of each box.
pub fn rect_centers(rects: &Vec<Rect>) -> (r: Vec<i32>)
    requires
        forall|i: int|
            0 <= i < rects@.len() ==> coord_bounded(#[trigger] rects@[i].top) && coord_bounded(
                rects@[i].bottom,
            ),
    ensures
        r@.len() == rects@.len(),
        forall|i: int|
            0 <= i < rects@.len() ==> r@[i] == spec_half_toward_zero(
                (#[trigger] rects@[i]).top + rects@[i].bottom,
            ),
{
    let mut r: Vec<i32> = Vec::new();
    let mut i: usize = 0;
    while i < rects.len()
        invariant
            0 <= i <= rects@.len(),
            r@.len() == i,
            forall|k: int|
                0 <= k < rects@.len() ==> coord_bounded(#[trigger] rects@[k].top) && coord_bounded(
                    rects@[k].bottom,
                ),
            forall|k: int|
                0 <= k < i ==> r@[k] == spec_half_toward_zero(
                    (#[trigger] rects@[k]).top + rects@[k].bottom,
                ),
        decreases rects@.len() - i,
    {
        let rect = rects[i];
        r.push(midpoint(rect.top, rect.bottom));
        i = i + 1;
    }
    r
}

/// Strict order in which released items are laid out: by midpoint key,
/// ties by their index, so equal keys keep their old relative order.
pub open spec fn key_index_lt(keys: Seq<i32>, a: usize, b: usize) -> bool {
    ||| keys[a as int] < keys[b as int]
    ||| (keys[a as int] == keys[b as int] && a < b)
}

/// The indices `0` to `keys.len() - 1`, sorted stably by their key: the
/// result is the one ordering of all the indices that is strictly sorted
/// by key, ties resolved by index.
pub fn sort_indices_by_key(keys: &Vec<i32>) -> (r: Vec<usize>)
    ensures
        r@.len() == keys@.len(),
        forall|i: int| 0 <= i < r@.len() ==> 0 <= #[trigger] r@[i] < keys@.len(),
        forall|u: usize| 0 <= u < keys@.len() ==> r@.contains(u),
        forall|i: int, j: int| 0 <= i < j < r@.len() ==> key_index_lt(keys@, r@[i], r@[j]),
{
    let mut r: Vec<usize> = Vec::new();
    let mut v: usize = 0;
    while v < keys.len()
        invariant
            0 <= v <= keys@.len(),
            r@.len() == v,
            forall|i: int| 0 <= i < r@.len() ==> 0 <= #[trigger] r@[i] < v,
            forall|u: usize| 0 <= u < v ==> r@.contains(u),
            forall|i: int, j: int| 0 <= i < j < r@.len() ==> key_index_lt(keys@, r@[i], r@[j]),
        decreases keys@.len() - v,
    {
        let key_v = keys[v];
        let mut p: usize = 0;
        while p < r.len() && keys[r[p]] <= key_v
            invariant
                0 <= p <= r@.len(),
                r@.len() == v,
                v < keys@.len(),
                key_v == keys@[v as int],
                forall|i: int| 0 <= i < r@.len() ==> 0 <= #[trigger] r@[i] < v,
                forall|i: int, j: int| 0 <= i < j < r@.len() ==> key_index_lt(keys@, r@[i], r@[j]),
                forall|i: int| 0 <= i < p ==> keys@[#[trigger] r@[i] as int] <= keys@[v as int],
            decreases r@.len() - p,
        {
            p = p + 1;
        }
        proof {
            assert forall|i: int| p <= i < r@.len() implies keys@[#[trigger] r@[i] as int]
                > keys@[v as int] by {
                assert(key_index_lt(keys@, r@[p as int], r@[i]) || i == p);
            }
        }
        let ghost r_old = r@;
        r.insert(p, v);
        proof {
            assert forall|i: int, j: int| 0 <= i < j < r@.len() implies key_index_lt(
                keys@,
                r@[i],
                r@[j],
            ) by {
                if j < p {
                    assert(r@[i] == r_old[i] && r@[j] == r_old[j]);
                } else if i > p {
                    assert(r@[i] == r_old[i - 1] && r@[j] == r_old[j - 1]);
                } else if i < p && j == p {
                    assert(r@[i] == r_old[i] && r@[j] == v);
                } else if i < p && j > p {
                    assert(r@[i] == r_old[i] && r@[j] == r_old[j - 1]);
                } else if i == p {
                    assert(r@[i] == v && r@[j] == r_old[j - 1]);
                }
            }
            assert forall|u: usize| 0 <= u < v + 1 implies r@.contains(u) by {
                if u == v {
                    assert(r@[p as int] == u);
                } else {
                    assert(r_old.contains(u));
                    let w = choose|w: int| 0 <= w < r_old.len() && r_old[w] == u;
                    if w < p {
                        assert(r@[w] == u);
                    } else {
                        assert(r@[w + 1] == u);
                    }
                }
            }
        }
        v = v + 1;
    }
    r
}

/// The key a released item is sorted by: the midpoint of its top and its
/// height, as the widget measures the settled boxes.
pub open spec fn spec_release_key(tops_heights: Seq<(i32, i32)>, i: int) -> int {
    spec_half_toward_zero(tops_heights[i].0 + tops_heights[i].1)
}

/// The order the items settle in when the drag is released: item indices
/// sorted stably by the midpoint of their measured box.
pub fn release_order(tops_heights: &Vec<(i32, i32)>) -> (r: Vec<usize>)
    requires
        forall|i: int|
            0 <= i < tops_heights@.len() ==> coord_bounded((#[trigger] tops_heights@[i]).0)
                && coord_bounded(tops_heights@[i].1),
    ensures
        r@.len() == tops_heights@.len(),
        forall|i: int| 0 <= i < r@.len() ==> 0 <= #[trigger] r@[i] < tops_heights@.len(),
        forall|u: usize| 0 <= u < tops_heights@.len() ==> r@.contains(u),
        forall|i: int, j: int|
            0 <= i < j < r@.len() ==> spec_release_key(tops_heights@, r@[i] as int)
                < spec_release_key(tops_heights@, r@[j] as int) || (spec_release_key(
                tops_heights@,
                r@[i] as int,
            ) == spec_release_key(tops_heights@, r@[j] as int) && r@[i] < r@[j]),
{
    let mut keys: Vec<i32> = Vec::new();
    let mut i: usize = 0;
    while i < tops_heights.len()
        invariant
            0 <= i <= tops_heights@.len(),
            keys@.len() == i,
            forall|k: int|
                0 <= k < tops_heights@.len() ==> coord_bounded((#[trigger] tops_heights@[k]).0)
                    && coord_bounded(tops_heights@[k].1),
            forall|k: int| 0 <= k < i ==> keys@[k] == spec_release_key(tops_heights@, k),
        decreases tops_heights@.len() - i,
    {
        let th = tops_heights[i];
        keys.push(midpoint(th.0, th.1));
        i = i + 1;
    }
    let r = sort_indices_by_key(&keys);
    proof {
        assert forall|i: int, j: int|
            0 <= i < j < r@.len() implies spec_release_key(tops_heights@, r@[i] as int)
            < spec_release_key(tops_heights@, r@[j] as int) || (spec_release_key(
            tops_heights@,
            r@[i] as int,
        ) == spec_release_key(tops_heights@, r@[j] as int) && r@[i] < r@[j]) by {
            assert(key_index_lt(keys@, r@[i], r@[j]));
            assert(keys@[r@[i] as int] == spec_release_key(tops_heights@, r@[i] as int));
            assert(keys@[r@[j] as int] == spec_release_key(tops_heights@, r@[j] as int));
        }
    }
    r
}

/// How one item is shifted while another is dragged.
#[derive(Clone, Copy, PartialEq, Eq, Structural, Debug)]
pub enum Displacement {
    Dragged,
    Raised,
    Lowered,
    Rest,
}

/// First position of `id` in the order.
pub open spec fn spec_position_of(s: Seq<usize>, id: usize) -> int
    decreases s.len(),
{
    if s.len() == 0 {
        0
    } else if s[0] == id {
        0
    } else {
        1 + spec_position_of(s.drop_first(), id)
    }
}

/// A found first occurrence is the first-position index.
proof fn lemma_position_of(s: Seq<usize>, id: usize, p: int)
    requires
        0 <= p < s.len(),
        s[p] == id,
        forall|j: int| 0 <= j < p ==> s[j] != id,
    ensures
        p == spec_position_of(s, id),
    decreases p,
{
    if p > 0 {
        lemma_position_of(s.drop_first(), id, p - 1);
    }
}

/// First position of `id` in the order.
pub fn position_of(order: &Vec<usize>, id: usize) -> (p: usize)
    requires
        order@.contains(id),
    ensures
        p == spec_position_of(order@, id),
        0 <= p < order@.len(),
        order@[p as int] == id,
{
    let mut p: usize = 0;
    while p < order.len() && order[p] != id
        invariant
            0 <= p <= order@.len(),
            order@.contains(id),
            forall|j: int| 0 <= j < p ==> order@[j] != id,
        decreases order@.len() - p,
    {
        p = p + 1;
    }
    proof {
        if p == order@.len() {
            let w = choose|w: int| 0 <= w < order@.len() && order@[w] == id;
            assert(false);
        }
        lemma_position_of(order@, id, p as int);
    }
    p
}

/// How the item `other` is shifted while `dragged` is held with its box
/// from `top` to `bottom`: an item after the dragged one is raised once
/// the dragged box's bottom passes its midpoint, one before it is lowered
/// once the top passes its midpoint, and it rests otherwise.
pub open spec fn spec_displacement(
    order: Seq<usize>,
    dragged: usize,
    top: i32,
    bottom: i32,
    centers: Seq<i32>,
    other: int,
) -> Displacement {
    let pos = spec_position_of(order, dragged);
    let opos = spec_position_of(order, other as usize);
    if opos == pos {
        Displacement::Dragged
    } else if opos > pos && bottom > centers[other] {
        Displacement::Raised
    } else if opos < pos && top < centers[other] {
        Displacement::Lowered
    } else {
        Displacement::Rest
    }
}

/// The shift of every item while `dragged` is held.
pub fn drag_displacements(
    order: &Vec<usize>,
    dragged: usize,
    top: i32,
    bottom: i32,
    centers: &Vec<i32>,
) -> (r: Vec<Displacement>)
    requires
        centers@.len() == order@.len(),
        order@.contains(dragged),
        forall|u: usize| 0 <= u < order@.len() ==> order@.contains(u),
    ensures
        r@.len() == order@.len(),
        forall|other: int|
            0 <= other < order@.len() ==> r@[other] == spec_displacement(
                order@,
                dragged,
                top,
                bottom,
                centers@,
                other,
            ),
{
    let pos = position_of(order, dragged);
    let mut r: Vec<Displacement> = Vec::new();
    let mut other: usize = 0;
    while other < order.len()
        invariant
            0 <= other <= order@.len(),
            centers@.len() == order@.len(),
            order@.contains(dragged),
            forall|u: usize| 0 <= u < order@.len() ==> order@.contains(u),
            pos == spec_position_of(order@, dragged),
            r@.len() == other,
            forall|k: int|
                0 <= k < other ==> r@[k] == spec_displacement(
                    order@,
                    dragged,
                    top,
                    bottom,
                    centers@,
                    k,
                ),
        decreases order@.len() - other,
    {
        let opos = position_of(order, other);
        let d = if opos == pos {
            Displacement::Dragged
        } else if opos > pos && bottom > centers[other] {
            Displacement::Raised
        } else if opos < pos && top < centers[other] {
            Displacement::Lowered
        } else {
            Displacement::Rest
        };
        r.push(d);
        other = other + 1;
    }
    r
}

/// The item labels laid out in the widget's order.
pub fn ordered_items(items: &Vec<String>, order: &Vec<usize>) -> (r: Vec<String>)
    requires
        forall|k: int| 0 <= k < order@.len() ==> 0 <= #[trigger] order@[k] < items@.len(),
    ensures
        r@.len() == order@.len(),
        forall|k: int| 0 <= k < order@.len() ==> r@[k] == items@[#[trigger] order@[k] as int],
{
    let mut r: Vec<String> = Vec::new();
    let mut k: usize = 0;
    while k < order.len()
        invariant
            0 <= k <= order@.len(),
            forall|j: int| 0 <= j < order@.len() ==> 0 <= #[trigger] order@[j] < items@.len(),
            r@.len() == k,
            forall|j: int| 0 <= j < k ==> r@[j] == items@[#[trigger] order@[j] as int],
        decreases order@.len() - k,
    {
        let idx = order[k];
        r.push(items[idx].clone());
        k = k + 1;
    }
    r
}

} // verus!
