//! Names beside the symbols on a map, such as the AIS chart's vessel names and
//! the ADS-B picture's data blocks, placed so that they never pile up.
//!
//! Each name is placed greedily: the ones that must show first, then the rest
//! by rank, each only if it misses every name already placed.
//!
//! A name goes up and to the right of its symbol, where every radar and chart
//! plotter puts it, and moves to another corner only when that one has no room,
//! at the map's edge above all.
//!
//! Points are fixed-point numbers here, [`ONE`] to the point.
use vstd::prelude::*;
use crate::fixed::{half, law_a_product_is_rounded_down, product, times, ONE};

verus! {

/// From one line of a name to the next.
pub const PITCH: i64 = 42_949_672_960;

/// A place on the map.
#[derive(Clone, Copy, Debug, PartialEq, Eq, Structural)]
pub struct Pos {
    pub x: i128,
    pub y: i128,
}

/// A box on the map.
#[derive(Clone, Copy, Debug, PartialEq, Eq, Structural)]
pub struct Rect {
    pub left: i128,
    pub top: i128,
    pub right: i128,
    pub bottom: i128,
}

/// A box, over integers.
#[verifier::ext_equal]
pub struct Area {
    pub left: int,
    pub top: int,
    pub right: int,
    pub bottom: int,
}

impl View for Rect {
    type V = Area;

    open spec fn view(&self) -> Area {
        Area {
            left: self.left as int,
            top: self.top as int,
            right: self.right as int,
            bottom: self.bottom as int,
        }
    }
}

/// Whether a box holds both corners of another.
pub open spec fn holds(a: Area, b: Area) -> bool {
    &&& a.left <= b.left <= a.right
    &&& a.left <= b.right <= a.right
    &&& a.top <= b.top <= a.bottom
    &&& a.top <= b.bottom <= a.bottom
}

/// Whether two boxes meet, edges included.
pub open spec fn meet(a: Area, b: Area) -> bool {
    a.left <= b.right && b.left <= a.right && a.top <= b.bottom && b.top <= a.bottom
}

impl Rect {
    /// Whether the box holds both corners of another.
    pub fn contains_rect(self, other: Rect) -> (r: bool)
        ensures
            r == holds(self@, other@),
    {
        self.left <= other.left && other.left <= self.right && self.left <= other.right
            && other.right <= self.right && self.top <= other.top && other.top <= self.bottom
            && self.top <= other.bottom && other.bottom <= self.bottom
    }

    /// Whether the box meets another, edges included.
    pub fn intersects(self, other: Rect) -> (r: bool)
        ensures
            r == meet(self@, other@),
    {
        self.left <= other.right && other.left <= self.right && self.top <= other.bottom
            && other.top <= self.bottom
    }
}

/// Which corner of its symbol a name sits off.
#[derive(Clone, Copy, Debug, PartialEq, Eq, Structural)]
pub enum Corner {
    UpRight,
    UpLeft,
    DownRight,
    DownLeft,
}

/// Whether a corner is to the right of its symbol.
pub open spec fn is_right(c: Corner) -> bool {
    c == Corner::UpRight || c == Corner::DownRight
}

/// Whether a corner is above its symbol.
pub open spec fn is_up(c: Corner) -> bool {
    c == Corner::UpRight || c == Corner::UpLeft
}

/// `v` to the right or down, its opposite to the left or up.
pub open spec fn signed(positive: bool, v: int) -> int {
    if positive {
        v
    } else {
        -v
    }
}

impl Corner {
    /// Which way the name lies from the symbol: +1 right or down, −1 left or up.
    pub fn signs(self) -> (r: (i128, i128))
        ensures
            r.0 == signed(is_right(self), 1),
            r.1 == signed(!is_up(self), 1),
    {
        match self {
            Corner::UpRight => (1, -1),
            Corner::UpLeft => (-1, -1),
            Corner::DownRight => (1, 1),
            Corner::DownLeft => (-1, 1),
        }
    }
}

/// `v` along a sign.
fn along(sign: i128, v: i128) -> (r: i128)
    requires
        v > i128::MIN,
    ensures
        r == signed(sign > 0, v as int),
{
    if sign > 0 {
        v
    } else {
        -v
    }
}

/// A name reduced to what placing it needs: how big it is, where its symbol
/// is, and what decides whether it gets room.
#[derive(Clone, Copy, Debug)]
pub struct Slot {
    /// The symbol's centre.
    pub x: i64,
    pub y: i64,
    /// The symbol's radius.
    pub r: i64,
    /// The whole block, every line of it.
    pub w: i64,
    pub h: i64,
    /// One line's height.
    pub line_h: i64,
    /// Drawn whatever it lands on.
    pub must: bool,
    /// How hard the name fights for room: lower wins.
    pub rank: u8,
    /// Settles a tie in rank.
    pub key: u32,
}

/// Where the tick joining name and symbol ends, across.
pub open spec fn anchor_x(s: Slot, c: Corner) -> int {
    s.x + signed(is_right(c), s.r + 3 * ONE)
}

/// Where the tick joining name and symbol ends, down.
pub open spec fn anchor_y(s: Slot, c: Corner) -> int {
    s.y + signed(!is_up(c), s.r + 2 * ONE)
}

/// The block's box off a corner: two points beyond the tick's end, flush
/// against it, and half a line off it.
pub open spec fn block_area(s: Slot, c: Corner) -> Area {
    let left = if is_right(c) {
        anchor_x(s, c) + 2 * ONE
    } else {
        anchor_x(s, c) - 2 * ONE - s.w
    };
    let top = if is_up(c) {
        anchor_y(s, c) - PITCH / 2 + s.line_h as int / 2 - s.h
    } else {
        anchor_y(s, c) + PITCH / 2 - s.line_h as int / 2
    };
    Area { left, top, right: left + s.w, bottom: top + s.h }
}

/// The room a block claims, with a point to spare all round.
pub open spec fn claimed(s: Slot, c: Corner) -> Area {
    let b = block_area(s, c);
    Area { left: b.left - ONE, top: b.top - ONE, right: b.right + ONE, bottom: b.bottom + ONE }
}

impl Slot {
    /// Where the tick joining name and symbol ends.
    pub fn anchor(&self, corner: Corner) -> (r: Pos)
        ensures
            r.x == anchor_x(*self, corner),
            r.y == anchor_y(*self, corner),
    {
        let (sx, sy) = corner.signs();
        let dx: i128 = self.r as i128 + 3 * ONE as i128;
        let dy: i128 = self.r as i128 + 2 * ONE as i128;
        Pos { x: self.x as i128 + along(sx, dx), y: self.y as i128 + along(sy, dy) }
    }

    /// The block's box off `corner`. Above the symbol each line is centred
    /// half a line above the tick's end, so the last one sits on the tick
    /// rather than being cut through by it; below, the same mirrored. To the
    /// left the lines are set flush right, against the tick.
    pub fn block(&self, corner: Corner) -> (r: Rect)
        ensures
            r@ == block_area(*self, corner),
    {
        let (sx, sy) = corner.signs();
        let anchor: Pos = self.anchor(corner);
        let left: i128 = if sx > 0 {
            anchor.x + 2 * ONE as i128
        } else {
            anchor.x - 2 * ONE as i128 - self.w as i128
        };
        let top: i128 = if sy < 0 {
            anchor.y - (PITCH / 2) as i128 + half(self.line_h) - self.h as i128
        } else {
            anchor.y + (PITCH / 2) as i128 - half(self.line_h)
        };
        Rect { left, top, right: left + self.w as i128, bottom: top + self.h as i128 }
    }

    /// The room the block claims, with a point to spare all round.
    pub fn area(&self, corner: Corner) -> (r: Rect)
        ensures
            r@ == claimed(*self, corner),
    {
        let b: Rect = self.block(corner);
        let one: i128 = ONE as i128;
        Rect {
            left: b.left - one,
            top: b.top - one,
            right: b.right + one,
            bottom: b.bottom + one,
        }
    }
}

// ── The order ───────────────────────────────────────────────────────────────

/// Whether `a` is placed before `b` by what decides it: the ones that must
/// show, then the lower rank, then the lower key.
pub open spec fn goes_before(a: Slot, b: Slot) -> bool {
    if a.must != b.must {
        a.must
    } else if a.rank != b.rank {
        a.rank < b.rank
    } else {
        a.key < b.key
    }
}

/// Whether `a` is placed before `b`.
fn is_before(a: &Slot, b: &Slot) -> (r: bool)
    ensures
        r == goes_before(*a, *b),
{
    if a.must != b.must {
        a.must
    } else if a.rank != b.rank {
        a.rank < b.rank
    } else {
        a.key < b.key
    }
}

/// Whether indices are in placing order, ties by index.
pub open spec fn in_order(slots: Seq<Slot>, order: Seq<int>) -> bool {
    forall|p: int, q: int|
        0 <= p < q < order.len() ==> ({
            let a = #[trigger] order[p];
            let b = #[trigger] order[q];
            goes_before(slots[a], slots[b]) || (!goes_before(slots[b], slots[a]) && a < b)
        })
}

/// Whether `order` lists each of the first `n` indices once.
pub open spec fn lists_each(order: Seq<int>, n: int) -> bool {
    &&& order.len() == n
    &&& order.no_duplicates()
    &&& forall|p: int| 0 <= p < order.len() ==> 0 <= #[trigger] order[p] < n
    &&& forall|i: int| 0 <= i < n ==> #[trigger] order.contains(i)
}

/// How many of `order` come before a new slot `i`: all that do not go after it.
pub open spec fn insertion_point(slots: Seq<Slot>, order: Seq<int>, i: int) -> int
    decreases order.len(),
{
    if order.len() == 0 || !goes_before(slots[i], slots[order.last()]) {
        order.len() as int
    } else {
        insertion_point(slots, order.drop_last(), i)
    }
}

/// The indices of the first `n` slots in placing order, ties by index.
pub open spec fn placing_order(slots: Seq<Slot>, n: int) -> Seq<int>
    decreases n,
{
    if n <= 0 {
        seq![]
    } else {
        let before = placing_order(slots, n - 1);
        before.insert(insertion_point(slots, before, n - 1), n - 1)
    }
}

/// Where a slot is inserted: nothing before it goes after it, and it goes
/// before everything after it.
proof fn lemma_insertion_point(slots: Seq<Slot>, order: Seq<int>, i: int)
    requires
        in_order(slots, order),
    ensures
        0 <= insertion_point(slots, order, i) <= order.len(),
        forall|p: int|
            insertion_point(slots, order, i) <= p < order.len() ==> goes_before(
                slots[i],
                slots[#[trigger] order[p]],
            ),
        forall|p: int|
            0 <= p < insertion_point(slots, order, i) ==> !goes_before(
                slots[i],
                slots[#[trigger] order[p]],
            ),
    decreases order.len(),
{
    if order.len() > 0 {
        let rest = order.drop_last();
        assert(in_order(slots, rest)) by {
            assert forall|p: int, q: int| 0 <= p < q < rest.len() implies ({
                let a = #[trigger] rest[p];
                let b = #[trigger] rest[q];
                goes_before(slots[a], slots[b]) || (!goes_before(slots[b], slots[a]) && a < b)
            }) by {
                assert(rest[p] == order[p] && rest[q] == order[q]);
            }
        }
        lemma_insertion_point(slots, rest, i);
        let at = insertion_point(slots, order, i);
        if goes_before(slots[i], slots[order.last()]) {
            assert forall|p: int| at <= p < order.len() implies goes_before(
                slots[i],
                slots[#[trigger] order[p]],
            ) by {
                if p < rest.len() {
                    assert(order[p] == rest[p]);
                }
            }
            assert forall|p: int| 0 <= p < at implies !goes_before(
                slots[i],
                slots[#[trigger] order[p]],
            ) by {
                assert(order[p] == rest[p]);
            }
        } else {
            assert forall|p: int| 0 <= p < at implies !goes_before(
                slots[i],
                slots[#[trigger] order[p]],
            ) by {
                if p < order.len() - 1 {
                    let a = order[p];
                    let b = order[order.len() - 1];
                    assert(goes_before(slots[a], slots[b]) || !goes_before(slots[b], slots[a]));
                }
            }
        }
    }
}

/// Every slot is in the placing order once, and the order is by what decides
/// it: the names that must show, then the lower rank, then the lower key, and
/// between equals the one listed first.
pub proof fn law_placing_order(slots: Seq<Slot>, n: int)
    requires
        0 <= n <= slots.len(),
    ensures
        lists_each(placing_order(slots, n), n),
        in_order(slots, placing_order(slots, n)),
    decreases n,
{
    if n > 0 {
        let i = n - 1;
        let before = placing_order(slots, i);
        law_placing_order(slots, i);
        lemma_insertion_point(slots, before, i);
        let at = insertion_point(slots, before, i);
        let all = before.insert(at, i);
        assert(forall|p: int| 0 <= p < at ==> all[p] == before[p]);
        assert(all[at] == i);
        assert(forall|p: int| at < p < all.len() ==> all[p] == before[p - 1]);
        assert forall|k: int| 0 <= k < n implies #[trigger] all.contains(k) by {
            if k == i {
                assert(all[at] == k);
            } else {
                assert(before.contains(k));
                let p = choose|p: int| 0 <= p < before.len() && before[p] == k;
                if p < at {
                    assert(all[p] == k);
                } else {
                    assert(all[p + 1] == k);
                }
            }
        }
        assert forall|p: int, q: int| 0 <= p < q < all.len() implies ({
            let a = #[trigger] all[p];
            let b = #[trigger] all[q];
            goes_before(slots[a], slots[b]) || (!goes_before(slots[b], slots[a]) && a < b)
        }) by {
            if q < at {
                assert(all[p] == before[p] && all[q] == before[q]);
            } else if q == at {
                assert(all[p] == before[p]);
                assert(0 <= before[p] < i);
            } else if p < at {
                assert(all[p] == before[p] && all[q] == before[q - 1]);
            } else if p == at {
                assert(all[q] == before[q - 1]);
            } else {
                assert(all[p] == before[p - 1] && all[q] == before[q - 1]);
            }
        }
        assert(all.no_duplicates()) by {
            assert forall|p: int, q: int|
                0 <= p < all.len() && 0 <= q < all.len() && p != q implies all[p] != all[q] by {
                let bp = if p < at {
                    p
                } else {
                    p - 1
                };
                let bq = if q < at {
                    q
                } else {
                    q - 1
                };
                if p == at {
                    assert(all[q] == before[bq]);
                    assert(0 <= before[bq] < i);
                } else if q == at {
                    assert(all[p] == before[bp]);
                    assert(0 <= before[bp] < i);
                } else {
                    assert(all[p] == before[bp] && all[q] == before[bq]);
                    assert(bp != bq);
                }
            }
        }
    }
}

/// Indices as integers.
pub open spec fn indices(v: Seq<usize>) -> Seq<int> {
    v.map_values(|i: usize| i as int)
}

/// The slots' indices in placing order.
fn order_of(slots: &Vec<Slot>) -> (r: Vec<usize>)
    ensures
        indices(r@) == placing_order(slots@, slots@.len() as int),
{
    let mut order: Vec<usize> = Vec::new();
    assert(indices(order@) =~= seq![]);
    let mut n: usize = 0;
    while n < slots.len()
        invariant
            n <= slots@.len(),
            indices(order@) == placing_order(slots@, n as int),
        decreases slots@.len() - n,
    {
        let ghost before = placing_order(slots@, n as int);
        proof {
            law_placing_order(slots@, n as int);
            lemma_insertion_point(slots@, before, n as int);
        }
        let mut at: usize = order.len();
        assert(before.take(at as int) =~= before);
        while at > 0 && is_before(&slots[n], &slots[order[at - 1]])
            invariant
                n < slots@.len(),
                indices(order@) == before,
                lists_each(before, n as int),
                at <= order@.len(),
                insertion_point(slots@, before, n as int) == insertion_point(
                    slots@,
                    before.take(at as int),
                    n as int,
                ),
            decreases at,
        {
            assert(before.take(at as int).last() == order@[at - 1]);
            assert(before.take(at as int).drop_last() =~= before.take(at - 1));
            at = at - 1;
            assert(0 <= before[at as int] < n);
        }
        proof {
            if at > 0 {
                assert(before.take(at as int).last() == order@[at - 1]);
            }
            assert(insertion_point(slots@, before, n as int) == at);
        }
        let ghost kept = order@;
        order.insert(at, n);
        assert(indices(order@) =~= before.insert(at as int, n as int));
        n = n + 1;
    }
    order
}

// ── The plan ────────────────────────────────────────────────────────────────

/// Whether a block off a corner stays inside the map.
pub open spec fn is_inside(s: Slot, c: Corner, bounds: Area) -> bool {
    holds(bounds, claimed(s, c))
}

/// Whether a block off a corner stays inside the map and misses every one
/// placed.
pub open spec fn is_clear(s: Slot, c: Corner, bounds: Area, placed: Seq<Area>) -> bool {
    is_inside(s, c, bounds) && forall|k: int|
        0 <= k < placed.len() ==> !meet(#[trigger] placed[k], claimed(s, c))
}

/// The first corner with room: up right, up left, down right, down left.
pub open spec fn clear_corner(s: Slot, bounds: Area, placed: Seq<Area>) -> Option<Corner> {
    if is_clear(s, Corner::UpRight, bounds, placed) {
        Some(Corner::UpRight)
    } else if is_clear(s, Corner::UpLeft, bounds, placed) {
        Some(Corner::UpLeft)
    } else if is_clear(s, Corner::DownRight, bounds, placed) {
        Some(Corner::DownRight)
    } else if is_clear(s, Corner::DownLeft, bounds, placed) {
        Some(Corner::DownLeft)
    } else {
        None
    }
}

/// The first corner inside the map.
pub open spec fn inside_corner(s: Slot, bounds: Area) -> Option<Corner> {
    clear_corner(s, bounds, seq![])
}

/// Where a name goes: at the first corner with room. One that must show goes to
/// the first corner inside the map otherwise, or else up and to the right.
pub open spec fn corner_for(s: Slot, bounds: Area, placed: Seq<Area>) -> Option<Corner> {
    if clear_corner(s, bounds, placed) is Some {
        clear_corner(s, bounds, placed)
    } else if s.must {
        if inside_corner(s, bounds) is Some {
            inside_corner(s, bounds)
        } else {
            Some(Corner::UpRight)
        }
    } else {
        None
    }
}

/// The room that the names of a plan claim.
pub open spec fn claims(slots: Seq<Slot>, plan: Seq<(int, Corner)>) -> Seq<Area> {
    plan.map_values(|e: (int, Corner)| claimed(slots[e.0], e.1))
}

/// The plan for slots taken in an order: each at its corner, given those before
/// it, or not at all.
pub open spec fn planned(slots: Seq<Slot>, bounds: Area, order: Seq<int>) -> Seq<(int, Corner)>
    decreases order.len(),
{
    if order.len() == 0 {
        seq![]
    } else {
        let before = planned(slots, bounds, order.drop_last());
        match corner_for(slots[order.last()], bounds, claims(slots, before)) {
            Some(c) => before.push((order.last(), c)),
            None => before,
        }
    }
}

/// The names to draw, by index, and off which corner, in draw order.
pub open spec fn full_plan(slots: Seq<Slot>, bounds: Area) -> Seq<(int, Corner)> {
    planned(slots, bounds, placing_order(slots, slots.len() as int))
}

/// The boxes of a list, over integers.
pub open spec fn area_views(v: Seq<Rect>) -> Seq<Area> {
    v.map_values(|r: Rect| r@)
}

/// A plan, over integers.
pub open spec fn plan_view(v: Seq<(usize, Corner)>) -> Seq<(int, Corner)> {
    v.map_values(|e: (usize, Corner)| (e.0 as int, e.1))
}

/// Whether a block off a corner stays inside the map and misses every one
/// placed.
fn has_room(s: &Slot, c: Corner, bounds: Rect, placed: &Vec<Rect>) -> (r: bool)
    ensures
        r == is_clear(*s, c, bounds@, area_views(placed@)),
{
    let area: Rect = s.area(c);
    if !bounds.contains_rect(area) {
        return false;
    }
    let ghost views = area_views(placed@);
    let mut k: usize = 0;
    while k < placed.len()
        invariant
            k <= placed@.len(),
            views == area_views(placed@),
            area@ == claimed(*s, c),
            forall|j: int| 0 <= j < k ==> !meet(#[trigger] views[j], area@),
        decreases placed@.len() - k,
    {
        assert(views[k as int] == placed@[k as int]@);
        if placed[k].intersects(area) {
            return false;
        }
        k = k + 1;
    }
    true
}

/// The first corner with room.
fn first_clear(s: &Slot, bounds: Rect, placed: &Vec<Rect>) -> (r: Option<Corner>)
    ensures
        r == clear_corner(*s, bounds@, area_views(placed@)),
{
    if has_room(s, Corner::UpRight, bounds, placed) {
        Some(Corner::UpRight)
    } else if has_room(s, Corner::UpLeft, bounds, placed) {
        Some(Corner::UpLeft)
    } else if has_room(s, Corner::DownRight, bounds, placed) {
        Some(Corner::DownRight)
    } else if has_room(s, Corner::DownLeft, bounds, placed) {
        Some(Corner::DownLeft)
    } else {
        None
    }
}

/// Where a name goes.
fn choose_corner(s: &Slot, bounds: Rect, placed: &Vec<Rect>) -> (r: Option<Corner>)
    ensures
        r == corner_for(*s, bounds@, area_views(placed@)),
{
    match first_clear(s, bounds, placed) {
        Some(c) => Some(c),
        None => {
            if s.must {
                let none: Vec<Rect> = Vec::new();
                assert(area_views(none@) =~= seq![]);
                match first_clear(s, bounds, &none) {
                    Some(c) => Some(c),
                    None => Some(Corner::UpRight),
                }
            } else {
                None
            }
        },
    }
}

/// Which of `slots` to draw, by index, and off which corner, in draw order.
///
/// The ones that must appear first, whatever they land on, but at a corner
/// with room where there is one, so a selected target at the map's edge still
/// shows its whole name. Then the rest in rank order, each at the first corner
/// whose box stays inside `bounds` and misses every one already placed, or not
/// at all.
pub fn plan(slots: &Vec<Slot>, bounds: Rect) -> (r: Vec<(usize, Corner)>)
    ensures
        plan_view(r@) == full_plan(slots@, bounds@),
{
    let order: Vec<usize> = order_of(slots);
    let ghost ord = indices(order@);
    proof {
        law_placing_order(slots@, slots@.len() as int);
    }
    let mut placed: Vec<Rect> = Vec::new();
    let mut out: Vec<(usize, Corner)> = Vec::new();
    assert(plan_view(out@) =~= seq![]);
    assert(area_views(placed@) =~= claims(slots@, plan_view(out@)));
    let mut n: usize = 0;
    while n < order.len()
        invariant
            n <= order@.len(),
            ord == indices(order@),
            lists_each(ord, slots@.len() as int),
            plan_view(out@) == planned(slots@, bounds@, ord.take(n as int)),
            area_views(placed@) == claims(slots@, plan_view(out@)),
        decreases order@.len() - n,
    {
        assert(ord.take(n + 1).drop_last() =~= ord.take(n as int));
        let i: usize = order[n];
        assert(0 <= ord[n as int] < slots@.len());
        let slot: Slot = slots[i];
        let ghost before = out@;
        let ghost areas = placed@;
        if let Some(corner) = choose_corner(&slot, bounds, &placed) {
            placed.push(slot.area(corner));
            out.push((i, corner));
            assert(plan_view(out@) =~= plan_view(before).push((i as int, corner)));
            assert(area_views(placed@) =~= area_views(areas).push(claimed(slot, corner)));
            assert(claims(slots@, plan_view(out@)) =~= claims(slots@, plan_view(before)).push(
                claimed(slot, corner),
            ));
        }
        n = n + 1;
    }
    assert(ord.take(n as int) =~= ord);
    out
}

// ── Drawing ─────────────────────────────────────────────────────────────────

/// How big one line of a name is.
#[derive(Clone, Copy, Debug)]
pub struct LineSize {
    pub w: i64,
    pub h: i64,
}

/// One target's name, waiting to be placed.
#[derive(Debug)]
pub struct MapLabel {
    /// The symbol's centre.
    pub x: i64,
    pub y: i64,
    /// The symbol's radius. The name starts just beyond it.
    pub r: i64,
    /// Where the tick joining name and symbol starts, as a fraction of `r`
    /// along the diagonal toward the name.
    pub tick_from: i64,
    /// The lines, top to bottom.
    pub lines: Vec<LineSize>,
    /// Drawn whatever it lands on: the target the operator picked or is
    /// pointing at, or one in distress. Placed first, so a crowded map culls
    /// *around* it rather than through it.
    pub must: bool,
    /// How hard the name fights for room: lower wins.
    pub rank: u8,
    /// Settles a tie in rank: the MMSI, the ICAO address. The trackers hand
    /// targets over in hash map order, so breaking ties by position would let
    /// which of two neighbours keeps its name change whenever the map is
    /// rehashed.
    pub key: u32,
}

/// One name as it is drawn.
#[derive(Debug)]
pub struct Drawn {
    /// Which label it is.
    pub label: usize,
    /// Where the tick joining name and symbol starts.
    pub tick_start: Pos,
    /// Where the tick ends.
    pub tick_end: Pos,
    /// The top left corner of each line.
    pub lines: Vec<Pos>,
}

/// The widest line, and nothing less than zero.
pub open spec fn widest(lines: Seq<LineSize>) -> int
    decreases lines.len(),
{
    if lines.len() == 0 {
        0
    } else {
        let before = widest(lines.drop_last());
        if lines.last().w > before {
            lines.last().w as int
        } else {
            before
        }
    }
}

/// The tallest line, and nothing less than zero.
pub open spec fn tallest(lines: Seq<LineSize>) -> int
    decreases lines.len(),
{
    if lines.len() == 0 {
        0
    } else {
        let before = tallest(lines.drop_last());
        if lines.last().h > before {
            lines.last().h as int
        } else {
            before
        }
    }
}

/// How tall a block of `n` lines is, held at the end of the range.
pub open spec fn block_height(n: int, line_h: int) -> int {
    if (n - 1) * PITCH + line_h > i64::MAX {
        i64::MAX as int
    } else {
        (n - 1) * PITCH + line_h
    }
}

/// What placing a label needs.
pub open spec fn slot_of(l: MapLabel) -> Slot {
    Slot {
        x: l.x,
        y: l.y,
        r: l.r,
        w: widest(l.lines@) as i64,
        h: block_height(l.lines@.len() as int, tallest(l.lines@)) as i64,
        line_h: tallest(l.lines@) as i64,
        must: l.must,
        rank: l.rank,
        key: l.key,
    }
}

/// The labels that have a line at all, by index.
pub open spec fn with_lines(labels: Seq<MapLabel>) -> Seq<int>
    decreases labels.len(),
{
    if labels.len() == 0 {
        seq![]
    } else {
        let before = with_lines(labels.drop_last());
        if labels.last().lines@.len() > 0 {
            before.push(labels.len() - 1)
        } else {
            before
        }
    }
}

/// What placing the labels that have a line needs.
pub open spec fn slots_of(labels: Seq<MapLabel>) -> Seq<Slot> {
    with_lines(labels).map_values(|i: int| slot_of(labels[i]))
}

/// How far along the diagonal a tick starts.
pub open spec fn tick_offset(l: MapLabel) -> int {
    product(l.r as int, l.tick_from as int)
}

/// Where a line of a block stands: flush against the tick, one pitch below the
/// line before it.
pub open spec fn line_at(p: Pos, size: LineSize, b: Area, c: Corner, k: int) -> bool {
    &&& p.x == (if is_right(c) {
        b.left
    } else {
        b.right - size.w
    })
    &&& p.y == b.top + k * PITCH
}

/// Whether a name is drawn as its label says, off a corner.
pub open spec fn drawn_as(d: Drawn, l: MapLabel, c: Corner) -> bool {
    &&& d.tick_start.x == l.x + signed(is_right(c), tick_offset(l))
    &&& d.tick_start.y == l.y + signed(!is_up(c), tick_offset(l))
    &&& d.tick_end.x == anchor_x(slot_of(l), c)
    &&& d.tick_end.y == anchor_y(slot_of(l), c)
    &&& d.lines@.len() == l.lines@.len()
    &&& forall|k: int|
        0 <= k < d.lines@.len() ==> line_at(
            #[trigger] d.lines@[k],
            l.lines@[k],
            block_area(slot_of(l), c),
            c,
            k,
        )
}

/// What placing a label needs.
fn make_slot(l: &MapLabel) -> (r: Slot)
    requires
        l.lines@.len() > 0,
    ensures
        r == slot_of(*l),
        r.w == widest(l.lines@),
        r.line_h == tallest(l.lines@),
{
    let mut w: i64 = 0;
    let mut line_h: i64 = 0;
    let mut i: usize = 0;
    while i < l.lines.len()
        invariant
            i <= l.lines@.len(),
            w == widest(l.lines@.take(i as int)),
            line_h == tallest(l.lines@.take(i as int)),
            line_h >= 0,
        decreases l.lines@.len() - i,
    {
        assert(l.lines@.take(i + 1).drop_last() =~= l.lines@.take(i as int));
        if l.lines[i].w > w {
            w = l.lines[i].w;
        }
        if l.lines[i].h > line_h {
            line_h = l.lines[i].h;
        }
        i = i + 1;
    }
    assert(l.lines@.take(i as int) =~= l.lines@);
    let gaps: usize = l.lines.len() - 1;
    assert(gaps * PITCH <= 0xffff_ffff_ffff_ffff * 42_949_672_960) by {
        assert(gaps <= 0xffff_ffff_ffff_ffff);
    }
    let tall: i128 = gaps as i128 * PITCH as i128 + line_h as i128;
    let h: i64 = if tall > i64::MAX as i128 {
        i64::MAX
    } else {
        tall as i64
    };
    Slot { x: l.x, y: l.y, r: l.r, w, h, line_h, must: l.must, rank: l.rank, key: l.key }
}

/// Draw one label off a corner.
fn draw_one(label: usize, l: &MapLabel, slot: &Slot, corner: Corner) -> (r: Drawn)
    requires
        *slot == slot_of(*l),
    ensures
        r.label == label,
        drawn_as(r, *l, corner),
{
    let (sx, sy) = corner.signs();
    let t: i128 = times(l.r, l.tick_from);
    let block: Rect = slot.block(corner);
    let mut lines: Vec<Pos> = Vec::new();
    let mut k: usize = 0;
    while k < l.lines.len()
        invariant
            k <= l.lines@.len(),
            lines@.len() == k,
            block@ == block_area(*slot, corner),
            sx == signed(is_right(corner), 1),
            forall|j: int|
                0 <= j < k ==> line_at(
                    #[trigger] lines@[j],
                    l.lines@[j],
                    block_area(*slot, corner),
                    corner,
                    j,
                ),
        decreases l.lines@.len() - k,
    {
        let x: i128 = if sx > 0 {
            block.left
        } else {
            block.right - l.lines[k].w as i128
        };
        lines.push(Pos { x, y: block.top + k as i128 * PITCH as i128 });
        k = k + 1;
    }
    Drawn {
        label,
        tick_start: Pos { x: l.x as i128 + along(sx, t), y: l.y as i128 + along(sy, t) },
        tick_end: slot.anchor(corner),
        lines,
    }
}

/// Place the names of `labels` that fit inside `bounds`, and say where to draw
/// them: each off a corner of its symbol, with a tick joining the two so a
/// crowded picture still says which name is whose.
pub fn draw(bounds: Rect, labels: &Vec<MapLabel>) -> (r: Vec<Drawn>)
    ensures
        ({
            let plan = full_plan(slots_of(labels@), bounds@);
            &&& r@.len() == plan.len()
            &&& forall|p: int|
                0 <= p < plan.len() ==> {
                    &&& (#[trigger] r@[p]).label == with_lines(labels@)[plan[p].0]
                    &&& drawn_as(r@[p], labels@[r@[p].label as int], plan[p].1)
                }
        }),
{
    let mut slots: Vec<Slot> = Vec::new();
    let mut kept: Vec<usize> = Vec::new();
    let mut i: usize = 0;
    assert(indices(kept@) =~= with_lines(labels@.take(0)));
    while i < labels.len()
        invariant
            i <= labels@.len(),
            indices(kept@) == with_lines(labels@.take(i as int)),
            slots@.len() == kept@.len(),
            forall|k: int|
                0 <= k < kept@.len() ==> #[trigger] kept@[k] < i && slots@[k] == slot_of(
                    labels@[kept@[k] as int],
                ),
        decreases labels@.len() - i,
    {
        assert(labels@.take(i + 1).drop_last() =~= labels@.take(i as int));
        if labels[i].lines.len() > 0 {
            let ghost before = kept@;
            slots.push(make_slot(&labels[i]));
            kept.push(i);
            assert(indices(kept@) =~= indices(before).push(i as int));
        }
        i = i + 1;
    }
    assert(labels@.take(i as int) =~= labels@);
    assert(slots@ =~= slots_of(labels@)) by {
        assert forall|k: int| 0 <= k < slots@.len() implies slots@[k] == slots_of(labels@)[k] by {
            assert(indices(kept@)[k] == kept@[k]);
        }
    }
    let chosen: Vec<(usize, Corner)> = plan(&slots, bounds);
    let ghost full = full_plan(slots@, bounds@);
    proof {
        law_plan_lists_names(slots@, bounds@);
    }
    let mut out: Vec<Drawn> = Vec::new();
    let mut p: usize = 0;
    while p < chosen.len()
        invariant
            p <= chosen@.len(),
            plan_view(chosen@) == full,
            out@.len() == p,
            slots@.len() == kept@.len(),
            slots@ == slots_of(labels@),
            indices(kept@) == with_lines(labels@),
            forall|k: int|
                0 <= k < kept@.len() ==> #[trigger] kept@[k] < labels@.len() && slots@[k]
                    == slot_of(labels@[kept@[k] as int]),
            forall|q: int| 0 <= q < full.len() ==> 0 <= (#[trigger] full[q]).0 < slots@.len(),
            forall|q: int|
                0 <= q < p ==> {
                    &&& (#[trigger] out@[q]).label == with_lines(labels@)[full[q].0]
                    &&& drawn_as(out@[q], labels@[out@[q].label as int], full[q].1)
                },
        decreases chosen@.len() - p,
    {
        let (i, corner) = chosen[p];
        assert(full[p as int] == (i as int, corner));
        assert(indices(kept@)[i as int] == kept@[i as int]);
        out.push(draw_one(kept[i], &labels[kept[i]], &slots[i], corner));
        p = p + 1;
    }
    out
}

// ── What holds of the whole ─────────────────────────────────────────────────

/// What is planned for the first `n` of an order is what is planned first.
proof fn lemma_planned_prefix(slots: Seq<Slot>, bounds: Area, order: Seq<int>, n: int)
    requires
        0 <= n <= order.len(),
    ensures
        planned(slots, bounds, order.take(n)).len() <= planned(slots, bounds, order).len(),
        forall|p: int|
            0 <= p < planned(slots, bounds, order.take(n)).len() ==> #[trigger] planned(
                slots,
                bounds,
                order,
            )[p] == planned(slots, bounds, order.take(n))[p],
    decreases order.len(),
{
    if n < order.len() {
        lemma_planned_prefix(slots, bounds, order.drop_last(), n);
        assert(order.drop_last().take(n) =~= order.take(n));
    } else {
        assert(order.take(n) =~= order);
    }
}

/// A name of a plan was placed at its corner given those before it, at its turn
/// in the order.
proof fn lemma_planned_turn(slots: Seq<Slot>, bounds: Area, order: Seq<int>, p: int) -> (n: int)
    requires
        0 <= p < planned(slots, bounds, order).len(),
    ensures
        0 <= n < order.len(),
        planned(slots, bounds, order.take(n)) == planned(slots, bounds, order).take(p),
        planned(slots, bounds, order)[p].0 == order[n],
        corner_for(
            slots[order[n]],
            bounds,
            claims(slots, planned(slots, bounds, order).take(p)),
        ) == Some(planned(slots, bounds, order)[p].1),
    decreases order.len(),
{
    let front = order.drop_last();
    let before = planned(slots, bounds, front);
    let all = planned(slots, bounds, order);
    if p < before.len() {
        let n = lemma_planned_turn(slots, bounds, front, p);
        assert(front.take(n) =~= order.take(n));
        assert(before.take(p) =~= all.take(p));
        n
    } else {
        assert(order.take(order.len() - 1) =~= front);
        assert(all.take(p) =~= before);
        order.len() - 1
    }
}

/// A plan lists names: each by an index of the list, and none twice.
pub proof fn law_plan_lists_names(slots: Seq<Slot>, bounds: Area)
    ensures
        forall|p: int|
            0 <= p < full_plan(slots, bounds).len() ==> 0 <= (#[trigger] full_plan(
                slots,
                bounds,
            )[p]).0 < slots.len(),
        forall|p: int, q: int|
            0 <= p < q < full_plan(slots, bounds).len() ==> (#[trigger] full_plan(
                slots,
                bounds,
            )[p]).0 != (#[trigger] full_plan(slots, bounds)[q]).0,
{
    let order = placing_order(slots, slots.len() as int);
    let plan = full_plan(slots, bounds);
    law_placing_order(slots, slots.len() as int);
    assert forall|p: int| 0 <= p < plan.len() implies 0 <= (#[trigger] plan[p]).0 < slots.len() by {
        let n = lemma_planned_turn(slots, bounds, order, p);
    }
    assert forall|p: int, q: int| 0 <= p < q < plan.len() implies (#[trigger] plan[p]).0 != (
    #[trigger] plan[q]).0 by {
        law_plan_is_in_order(slots, bounds, p, q);
    }
}

/// A plan is in placing order: what must show comes before what need not, then
/// the better rank, then the lower key, and between equals the one listed
/// first.
pub proof fn law_plan_is_in_order(slots: Seq<Slot>, bounds: Area, p: int, q: int)
    requires
        0 <= p < q < full_plan(slots, bounds).len(),
    ensures
        ({
            let a = full_plan(slots, bounds)[p].0;
            let b = full_plan(slots, bounds)[q].0;
            goes_before(slots[a], slots[b]) || (!goes_before(slots[b], slots[a]) && a < b)
        }),
{
    let order = placing_order(slots, slots.len() as int);
    let plan = full_plan(slots, bounds);
    law_placing_order(slots, slots.len() as int);
    let m = lemma_planned_turn(slots, bounds, order, p);
    let n = lemma_planned_turn(slots, bounds, order, q);
    if n <= m {
        lemma_planned_prefix(slots, bounds, order.take(m), n);
        assert(order.take(m).take(n) =~= order.take(n));
        assert(plan.take(q).len() == q);
    }
    assert(m < n);
    assert(order[m] == plan[p].0 && order[n] == plan[q].0);
}

/// Names never pile up: one that need not show is drawn inside the map, and
/// clear of every name placed before it.
pub proof fn law_names_never_pile_up(slots: Seq<Slot>, bounds: Area, p: int, q: int)
    requires
        0 <= p < q < full_plan(slots, bounds).len(),
        !slots[full_plan(slots, bounds)[q].0].must,
    ensures
        ({
            let a = full_plan(slots, bounds)[p];
            let b = full_plan(slots, bounds)[q];
            &&& !meet(claimed(slots[a.0], a.1), claimed(slots[b.0], b.1))
            &&& holds(bounds, claimed(slots[b.0], b.1))
        }),
{
    let order = placing_order(slots, slots.len() as int);
    let plan = full_plan(slots, bounds);
    let n = lemma_planned_turn(slots, bounds, order, q);
    let placed = claims(slots, plan.take(q));
    assert(placed[p] == claimed(slots[plan[p].0], plan[p].1));
}

/// What must show always shows.
pub proof fn law_what_must_show_shows(slots: Seq<Slot>, bounds: Area, i: int)
    requires
        0 <= i < slots.len(),
        slots[i].must,
    ensures
        exists|p: int|
            0 <= p < full_plan(slots, bounds).len() && (#[trigger] full_plan(slots, bounds)[p]).0
                == i,
{
    let order = placing_order(slots, slots.len() as int);
    let plan = full_plan(slots, bounds);
    law_placing_order(slots, slots.len() as int);
    assert(order.contains(i));
    let n = choose|n: int| 0 <= n < order.len() && order[n] == i;
    let before = planned(slots, bounds, order.take(n));
    let upto = planned(slots, bounds, order.take(n + 1));
    assert(order.take(n + 1).drop_last() =~= order.take(n));
    assert(order.take(n + 1).last() == i);
    assert(upto.last().0 == i);
    lemma_planned_prefix(slots, bounds, order, n + 1);
    assert(plan[upto.len() - 1] == upto[upto.len() - 1]);
}

/// A name is left out only where it has no room: off each of its corners it
/// would leave the map, or meet a name that goes before it or, between equals,
/// is listed first.
pub proof fn law_a_name_is_left_out_only_without_room(
    slots: Seq<Slot>,
    bounds: Area,
    i: int,
    c: Corner,
)
    requires
        0 <= i < slots.len(),
        forall|p: int|
            0 <= p < full_plan(slots, bounds).len() ==> (#[trigger] full_plan(slots, bounds)[p]).0
                != i,
    ensures
        !is_inside(slots[i], c, bounds) || exists|p: int|
            0 <= p < full_plan(slots, bounds).len() && meet(
                claimed(
                    slots[(#[trigger] full_plan(slots, bounds)[p]).0],
                    full_plan(slots, bounds)[p].1,
                ),
                claimed(slots[i], c),
            ) && ({
                let b = full_plan(slots, bounds)[p].0;
                goes_before(slots[b], slots[i]) || (!goes_before(slots[i], slots[b]) && b < i)
            }),
{
    let order = placing_order(slots, slots.len() as int);
    let plan = full_plan(slots, bounds);
    law_placing_order(slots, slots.len() as int);
    assert(order.contains(i));
    let n = choose|n: int| 0 <= n < order.len() && order[n] == i;
    let before = planned(slots, bounds, order.take(n));
    let upto = planned(slots, bounds, order.take(n + 1));
    let placed = claims(slots, before);
    assert(order.take(n + 1).drop_last() =~= order.take(n));
    assert(order.take(n + 1).last() == i);
    lemma_planned_prefix(slots, bounds, order, n + 1);
    lemma_planned_prefix(slots, bounds, order, n);
    if corner_for(slots[i], bounds, placed) is Some {
        assert(upto.last().0 == i);
        assert(plan[upto.len() - 1] == upto[upto.len() - 1]);
    }
    assert(!is_clear(slots[i], c, bounds, placed));
    if is_inside(slots[i], c, bounds) {
        let k = choose|k: int|
            0 <= k < placed.len() && meet(#[trigger] placed[k], claimed(slots[i], c));
        assert(plan[k] == before[k]);
        let m = lemma_planned_turn(slots, bounds, order.take(n), k);
        assert(order.take(n)[m] == order[m]);
        assert(before[k].0 == order[m]);
        assert(goes_before(slots[order[m]], slots[order[n]]) || (!goes_before(
            slots[order[n]],
            slots[order[m]],
        ) && order[m] < order[n]));
    }
}

/// Whether what decides the order leaves no ties.
pub open spec fn decided(slots: Seq<Slot>) -> bool {
    forall|i: int, j: int|
        0 <= i < slots.len() && 0 <= j < slots.len() && i != j ==> goes_before(
            #[trigger] slots[i],
            #[trigger] slots[j],
        ) || goes_before(slots[j], slots[i])
}

/// Slots, one after the other.
pub open spec fn strictly_ordered(s: Seq<Slot>) -> bool {
    forall|p: int, q: int|
        0 <= p < q < s.len() ==> goes_before(#[trigger] s[p], #[trigger] s[q])
}

/// The slots in placing order.
pub open spec fn ordered(slots: Seq<Slot>, order: Seq<int>) -> Seq<Slot> {
    order.map_values(|i: int| slots[i])
}

/// The names of a plan: the slot and the corner of each.
pub open spec fn named(slots: Seq<Slot>, plan: Seq<(int, Corner)>) -> Seq<(Slot, Corner)> {
    plan.map_values(|e: (int, Corner)| (slots[e.0], e.1))
}

/// Putting slots in order neither adds nor loses one.
proof fn lemma_ordered_multiset(slots: Seq<Slot>, n: int)
    requires
        0 <= n <= slots.len(),
    ensures
        ordered(slots, placing_order(slots, n)).to_multiset() == slots.take(n).to_multiset(),
    decreases n,
{
    if n <= 0 {
        assert(ordered(slots, placing_order(slots, n)) =~= slots.take(n));
    } else {
        let before = placing_order(slots, n - 1);
        let at = insertion_point(slots, before, n - 1);
        lemma_ordered_multiset(slots, n - 1);
        law_placing_order(slots, n - 1);
        lemma_insertion_point(slots, before, n - 1);
        assert(ordered(slots, placing_order(slots, n)) =~= ordered(slots, before).insert(
            at,
            slots[n - 1],
        ));
        vstd::seq_lib::to_multiset_insert(ordered(slots, before), at, slots[n - 1]);
        assert(slots.take(n) =~= slots.take(n - 1).push(slots[n - 1]));
        vstd::seq_lib::to_multiset_build(slots.take(n - 1), slots[n - 1]);
    }
}

/// Two strictly ordered lists of the same slots are the same list.
proof fn lemma_strictly_ordered_unique(a: Seq<Slot>, b: Seq<Slot>)
    requires
        strictly_ordered(a),
        strictly_ordered(b),
        a.to_multiset() == b.to_multiset(),
    ensures
        a == b,
    decreases a.len(),
{
    broadcast use vstd::seq_lib::group_to_multiset_ensures;

    assert(a.to_multiset().len() == a.len() && b.to_multiset().len() == b.len());
    if a.len() > 0 {
        assert(a.contains(a[0]) && b.contains(b[0]));
        assert(b.to_multiset().count(a[0]) > 0);
        assert(a.to_multiset().count(b[0]) > 0);
        assert(b.contains(a[0]) && a.contains(b[0]));
        let j = choose|j: int| 0 <= j < b.len() && b[j] == a[0];
        let k = choose|k: int| 0 <= k < a.len() && a[k] == b[0];
        if j > 0 && k > 0 {
            assert(goes_before(b[0], b[j]) && goes_before(a[0], a[k]));
        }
        assert(a[0] == b[0]);
        assert(a.remove(0) =~= a.skip(1));
        assert(b.remove(0) =~= b.skip(1));
        assert(strictly_ordered(a.skip(1))) by {
            assert forall|p: int, q: int| 0 <= p < q < a.skip(1).len() implies goes_before(
                #[trigger] a.skip(1)[p],
                #[trigger] a.skip(1)[q],
            ) by {
                assert(a.skip(1)[p] == a[p + 1] && a.skip(1)[q] == a[q + 1]);
            }
        }
        assert(strictly_ordered(b.skip(1))) by {
            assert forall|p: int, q: int| 0 <= p < q < b.skip(1).len() implies goes_before(
                #[trigger] b.skip(1)[p],
                #[trigger] b.skip(1)[q],
            ) by {
                assert(b.skip(1)[p] == b[p + 1] && b.skip(1)[q] == b[q + 1]);
            }
        }
        lemma_strictly_ordered_unique(a.skip(1), b.skip(1));
        assert(a =~= seq![a[0]] + a.skip(1));
        assert(b =~= seq![b[0]] + b.skip(1));
    }
}

/// The names of a plan depend on the slots in order alone.
proof fn lemma_named_by_order(
    a: Seq<Slot>,
    x: Seq<int>,
    b: Seq<Slot>,
    y: Seq<int>,
    bounds: Area,
)
    requires
        ordered(a, x) == ordered(b, y),
    ensures
        named(a, planned(a, bounds, x)) == named(b, planned(b, bounds, y)),
        claims(a, planned(a, bounds, x)) == claims(b, planned(b, bounds, y)),
    decreases x.len(),
{
    assert(ordered(a, x).len() == x.len() && ordered(b, y).len() == y.len());
    if x.len() == 0 {
        assert(named(a, planned(a, bounds, x)) =~= named(b, planned(b, bounds, y)));
        assert(claims(a, planned(a, bounds, x)) =~= claims(b, planned(b, bounds, y)));
    } else {
        let xf = x.drop_last();
        let yf = y.drop_last();
        assert(ordered(a, xf) =~= ordered(a, x).drop_last());
        assert(ordered(b, yf) =~= ordered(b, y).drop_last());
        lemma_named_by_order(a, xf, b, yf, bounds);
        assert(a[x.last()] == ordered(a, x).last());
        assert(b[y.last()] == ordered(b, y).last());
        let pa = planned(a, bounds, xf);
        let pb = planned(b, bounds, yf);
        if let Some(c) = corner_for(a[x.last()], bounds, claims(a, pa)) {
            assert(named(a, pa.push((x.last(), c))) =~= named(a, pa).push((a[x.last()], c)));
            assert(named(b, pb.push((y.last(), c))) =~= named(b, pb).push((b[y.last()], c)));
            assert(claims(a, pa.push((x.last(), c))) =~= claims(a, pa).push(
                claimed(a[x.last()], c),
            ));
            assert(claims(b, pb.push((y.last(), c))) =~= claims(b, pb).push(
                claimed(b[y.last()], c),
            ));
        }
    }
}

/// Slots that leave no ties are strictly in order.
proof fn lemma_decided_is_strict(slots: Seq<Slot>)
    requires
        decided(slots),
    ensures
        strictly_ordered(ordered(slots, placing_order(slots, slots.len() as int))),
{
    let order = placing_order(slots, slots.len() as int);
    law_placing_order(slots, slots.len() as int);
    assert forall|p: int, q: int| 0 <= p < q < ordered(slots, order).len() implies goes_before(
        #[trigger] ordered(slots, order)[p],
        #[trigger] ordered(slots, order)[q],
    ) by {
        let a = order[p];
        let b = order[q];
        assert(goes_before(slots[a], slots[b]) || (!goes_before(slots[b], slots[a]) && a < b));
    }
}

/// Which names show, and where, does not depend on the order the targets are
/// listed in, as long as rank and key leave no ties.
pub proof fn law_the_listing_order_does_not_matter(
    a: Seq<Slot>,
    b: Seq<Slot>,
    bounds: Area,
)
    requires
        a.to_multiset() == b.to_multiset(),
        decided(a),
        decided(b),
    ensures
        named(a, full_plan(a, bounds)) == named(b, full_plan(b, bounds)),
{
    let x = placing_order(a, a.len() as int);
    let y = placing_order(b, b.len() as int);
    lemma_ordered_multiset(a, a.len() as int);
    lemma_ordered_multiset(b, b.len() as int);
    assert(a.take(a.len() as int) =~= a);
    assert(b.take(b.len() as int) =~= b);
    lemma_decided_is_strict(a);
    lemma_decided_is_strict(b);
    lemma_strictly_ordered_unique(ordered(a, x), ordered(b, y));
    lemma_named_by_order(a, x, b, y, bounds);
}

/// Above its symbol a name is the mirror image of what it is below, and to the
/// left of what it is to the right, whatever the font makes a line's height.
pub proof fn law_corners_mirror_each_other(s: Slot)
    ensures
        block_area(s, Corner::DownRight).top - anchor_y(s, Corner::DownRight) == anchor_y(
            s,
            Corner::UpRight,
        ) - block_area(s, Corner::UpRight).bottom,
        block_area(s, Corner::UpRight).left - anchor_x(s, Corner::UpRight) == anchor_x(
            s,
            Corner::UpLeft,
        ) - block_area(s, Corner::UpLeft).right,
        anchor_y(s, Corner::DownRight) - s.y == s.y - anchor_y(s, Corner::UpRight),
        anchor_x(s, Corner::UpRight) - s.x == s.x - anchor_x(s, Corner::UpLeft),
{
}

/// No line is wider than the widest or taller than the tallest, and one is as
/// wide, and one as tall, where any has a size at all.
proof fn lemma_widest_and_tallest(lines: Seq<LineSize>)
    ensures
        0 <= widest(lines) <= i64::MAX,
        0 <= tallest(lines) <= i64::MAX,
        forall|k: int| 0 <= k < lines.len() ==> (#[trigger] lines[k]).w <= widest(lines),
        forall|k: int| 0 <= k < lines.len() ==> (#[trigger] lines[k]).h <= tallest(lines),
        widest(lines) > 0 ==> exists|k: int|
            0 <= k < lines.len() && (#[trigger] lines[k]).w == widest(lines),
        tallest(lines) > 0 ==> exists|k: int|
            0 <= k < lines.len() && (#[trigger] lines[k]).h == tallest(lines),
    decreases lines.len(),
{
    if lines.len() > 0 {
        let front = lines.drop_last();
        let n = lines.len() - 1;
        lemma_widest_and_tallest(front);
        assert forall|k: int| 0 <= k < lines.len() implies (#[trigger] lines[k]).w <= widest(lines)
            && lines[k].h <= tallest(lines) by {
            if k < n {
                assert(front[k] == lines[k]);
            }
        }
        if widest(lines) > 0 {
            if lines[n].w <= widest(front) {
                let k = choose|k: int|
                    0 <= k < front.len() && (#[trigger] front[k]).w == widest(front);
                assert(lines[k].w == widest(lines));
            }
        }
        if tallest(lines) > 0 {
            if lines[n].h <= tallest(front) {
                let k = choose|k: int|
                    0 <= k < front.len() && (#[trigger] front[k]).h == tallest(front);
                assert(lines[k].h == tallest(lines));
            }
        }
    }
}

/// Whether a label's lines have sizes, and room to stand under each other.
pub open spec fn has_sizes(l: MapLabel) -> bool {
    &&& l.lines@.len() > 0
    &&& forall|k: int|
        0 <= k < l.lines@.len() ==> (#[trigger] l.lines@[k]).w >= 0 && l.lines@[k].h >= 0
            && l.lines@[k].h + l.lines@.len() * PITCH <= i64::MAX
}

/// What a label claims room for covers every one of its lines: it is as wide as
/// the widest, one line is as tall as the tallest, and the lines stand ten points
/// under each other. It is where the label is, and fights for room as the label
/// does.
pub proof fn law_a_slot_covers_every_line(l: MapLabel)
    requires
        has_sizes(l),
    ensures
        ({
            let s = slot_of(l);
            let n = l.lines@.len() as int;
            &&& forall|k: int|
                0 <= k < n ==> (#[trigger] l.lines@[k]).w <= s.w && l.lines@[k].h <= s.line_h
            &&& exists|k: int| 0 <= k < n && (#[trigger] l.lines@[k]).w == s.w
            &&& exists|k: int| 0 <= k < n && (#[trigger] l.lines@[k]).h == s.line_h
            &&& s.h == (n - 1) * 10 * ONE + s.line_h
            &&& s.x == l.x && s.y == l.y && s.r == l.r
            &&& s.must == l.must && s.rank == l.rank && s.key == l.key
        }),
{
    let s = slot_of(l);
    let n = l.lines@.len() as int;
    lemma_widest_and_tallest(l.lines@);
    assert(l.lines@[0].w >= 0 && l.lines@[0].h >= 0);
    if widest(l.lines@) == 0 {
        assert(l.lines@[0].w == s.w);
    }
    let k = if tallest(l.lines@) == 0 {
        0
    } else {
        choose|k: int| 0 <= k < n && (#[trigger] l.lines@[k]).h == tallest(l.lines@)
    };
    assert(l.lines@[k].h == s.line_h);
    assert((n - 1) * PITCH == n * PITCH - PITCH) by (nonlinear_arith);
    assert((n - 1) * PITCH == (n - 1) * 10 * ONE) by (nonlinear_arith)
        requires
            PITCH == 10 * ONE,
    ;
    assert((n - 1) * PITCH >= 0) by (nonlinear_arith)
        requires
            n >= 1,
            PITCH > 0,
    ;
}

/// The lines of a drawn name stand ten points under each other, the first at the
/// block's top, and flush against the tick: starting with the block to the right of
/// a symbol, ending with it to the left. The room claimed is the block's with a
/// point to spare on every side.
pub proof fn law_where_each_line_stands(d: Drawn, l: MapLabel, c: Corner, k: int)
    requires
        drawn_as(d, l, c),
        0 <= k < l.lines@.len(),
    ensures
        ({
            let at = d.lines@[k];
            let room = claimed(slot_of(l), c);
            let block = block_area(slot_of(l), c);
            &&& d.lines@.len() == l.lines@.len()
            &&& room.left + ONE == block.left && block.right + ONE == room.right
            &&& room.top + ONE == block.top && block.bottom + ONE == room.bottom
            &&& at.y == block.top + k * 10 * ONE
            &&& c == Corner::UpRight || c == Corner::DownRight ==> at.x == block.left
            &&& c == Corner::UpLeft || c == Corner::DownLeft ==> at.x + l.lines@[k].w == block.right
        }),
{
    assert(line_at(d.lines@[k], l.lines@[k], block_area(slot_of(l), c), c, k));
    assert(k * PITCH == k * 10 * ONE) by (nonlinear_arith)
        requires
            PITCH == 10 * ONE,
    ;
}

/// Every line of a drawn name lies inside the block it was given room for, and so
/// inside the room claimed.
pub proof fn law_every_line_lies_inside_its_room(d: Drawn, l: MapLabel, c: Corner, k: int)
    requires
        has_sizes(l),
        drawn_as(d, l, c),
        0 <= k < l.lines@.len(),
    ensures
        ({
            let at = d.lines@[k];
            let size = l.lines@[k];
            let room = claimed(slot_of(l), c);
            let block = block_area(slot_of(l), c);
            &&& block.left <= at.x && at.x + size.w <= block.right
            &&& block.top <= at.y && at.y + size.h <= block.bottom
            &&& room.left < at.x && at.x + size.w < room.right
            &&& room.top < at.y && at.y + size.h < room.bottom
        }),
{
    law_a_slot_covers_every_line(l);
    law_where_each_line_stands(d, l, c, k);
    let s = slot_of(l);
    let n = l.lines@.len() as int;
    assert(0 <= k * 10 * ONE <= (n - 1) * 10 * ONE) by (nonlinear_arith)
        requires
            0 <= k <= n - 1,
            ONE > 0,
    ;
    assert(l.lines@[k].w <= s.w && l.lines@[k].h <= s.line_h);
}

/// A name stands off its symbol on the side its corner says, five points beyond
/// the symbol's edge across, and half a line and two points beyond it up or down,
/// whatever the symbol's size; and the block is as wide and as tall as the name.
pub proof fn law_a_name_stands_off_its_symbol(s: Slot, c: Corner)
    ensures
        ({
            let b = block_area(s, c);
            &&& b.right - b.left == s.w && b.bottom - b.top == s.h
            &&& c == Corner::UpRight || c == Corner::DownRight ==> b.left == s.x + s.r + 5 * ONE
            &&& c == Corner::UpLeft || c == Corner::DownLeft ==> b.right == s.x - s.r - 5 * ONE
            &&& c == Corner::UpRight || c == Corner::UpLeft ==> b.bottom == s.y - s.r - 7 * ONE
                + s.line_h as int / 2
            &&& c == Corner::DownRight || c == Corner::DownLeft ==> b.top == s.y + s.r + 7 * ONE
                - s.line_h as int / 2
        }),
{
}

/// The tick starts on the diagonal toward the name, the given part of the way to
/// the symbol's edge, and ends three points beyond the edge across and two up or
/// down.
pub proof fn law_the_tick_joins_symbol_and_name(d: Drawn, l: MapLabel, c: Corner)
    requires
        drawn_as(d, l, c),
    ensures
        ({
            let right = c == Corner::UpRight || c == Corner::DownRight;
            let up = c == Corner::UpRight || c == Corner::UpLeft;
            let dx = if right {
                d.tick_start.x - l.x
            } else {
                l.x - d.tick_start.x
            };
            let dy = if up {
                l.y - d.tick_start.y
            } else {
                d.tick_start.y - l.y
            };
            &&& dx == dy
            &&& 0 <= l.r && 0 <= l.tick_from <= ONE ==> 0 <= dx <= l.r
            &&& dx * ONE <= l.r * l.tick_from < dx * ONE + ONE
            &&& right ==> d.tick_end.x == l.x + l.r + 3 * ONE
            &&& !right ==> d.tick_end.x == l.x - l.r - 3 * ONE
            &&& up ==> d.tick_end.y == l.y - l.r - 2 * ONE
            &&& !up ==> d.tick_end.y == l.y + l.r + 2 * ONE
        }),
{
    let p = product(l.r as int, l.tick_from as int);
    law_a_product_is_rounded_down(l.r as int, l.tick_from as int);
    if 0 <= l.r && 0 <= l.tick_from <= ONE {
        assert(0 <= p <= l.r) by (nonlinear_arith)
            requires
                p * ONE <= l.r * l.tick_from < p * ONE + ONE,
                0 <= l.r,
                0 <= l.tick_from <= ONE,
                ONE > 0,
        ;
    }
}

/// The labels that are placed are those that have a line, each once, in the order
/// they were given.
pub proof fn law_labels_with_a_line_are_placed(labels: Seq<MapLabel>)
    ensures
        forall|p: int|
            0 <= p < with_lines(labels).len() ==> 0 <= #[trigger] with_lines(labels)[p]
                < labels.len() && labels[with_lines(labels)[p]].lines@.len() > 0,
        forall|p: int, q: int|
            0 <= p < q < with_lines(labels).len() ==> #[trigger] with_lines(labels)[p]
                < #[trigger] with_lines(labels)[q],
        forall|i: int|
            0 <= i < labels.len() && (#[trigger] labels[i]).lines@.len() > 0
                ==> with_lines(labels).contains(i),
        slots_of(labels).len() == with_lines(labels).len(),
        forall|p: int|
            0 <= p < slots_of(labels).len() ==> #[trigger] slots_of(labels)[p] == slot_of(
                labels[with_lines(labels)[p]],
            ),
    decreases labels.len(),
{
    if labels.len() > 0 {
        let front = labels.drop_last();
        let before = with_lines(front);
        let all = with_lines(labels);
        law_labels_with_a_line_are_placed(front);
        assert forall|p: int| 0 <= p < all.len() implies 0 <= #[trigger] all[p] < labels.len()
            && labels[all[p]].lines@.len() > 0 by {
            if p < before.len() {
                assert(all[p] == before[p]);
                assert(front[before[p]] == labels[before[p]]);
            }
        }
        assert forall|p: int, q: int| 0 <= p < q < all.len() implies #[trigger] all[p]
            < #[trigger] all[q] by {
            assert(all[p] == before[p]);
            if q < before.len() {
                assert(all[q] == before[q]);
            }
        }
        assert forall|i: int|
            0 <= i < labels.len() && (#[trigger] labels[i]).lines@.len() > 0 implies all.contains(
            i,
        ) by {
            if i < front.len() {
                assert(front[i] == labels[i]);
                assert(before.contains(i));
                let p = choose|p: int| 0 <= p < before.len() && before[p] == i;
                assert(all[p] == i);
            } else {
                assert(all[all.len() - 1] == i);
            }
        }
    }
}

/// Two boxes meet where they have a point in common, and a box holds another
/// where it has all of its points.
pub proof fn law_boxes_are_their_points(a: Area, b: Area)
    requires
        a.left <= a.right && a.top <= a.bottom,
        b.left <= b.right && b.top <= b.bottom,
    ensures
        meet(a, b) <==> exists|x: int, y: int|
            #![trigger has_point(a, x, y)]
            has_point(a, x, y) && has_point(b, x, y),
        holds(a, b) <==> forall|x: int, y: int|
            #![trigger has_point(b, x, y)]
            has_point(b, x, y) ==> has_point(a, x, y),
        meet(a, b) == meet(b, a),
{
    let x = if a.left > b.left {
        a.left
    } else {
        b.left
    };
    let y = if a.top > b.top {
        a.top
    } else {
        b.top
    };
    if meet(a, b) {
        assert(has_point(a, x, y) && has_point(b, x, y));
    }
    assert(has_point(b, b.left, b.top));
    assert(has_point(b, b.right, b.bottom));
    if forall|x: int, y: int|
        #![trigger has_point(b, x, y)]
        has_point(b, x, y) ==> has_point(a, x, y) {
        assert(has_point(a, b.left, b.top));
        assert(has_point(a, b.right, b.bottom));
    }
}

/// Whether a point lies in a box, edges included.
pub open spec fn has_point(a: Area, x: int, y: int) -> bool {
    a.left <= x <= a.right && a.top <= y <= a.bottom
}

/// The place of a corner in the order tried: up right, up left, down right, down
/// left.
pub open spec fn turn_of(c: Corner) -> int {
    match c {
        Corner::UpRight => 0,
        Corner::UpLeft => 1,
        Corner::DownRight => 2,
        Corner::DownLeft => 3,
    }
}

/// Whether a name off a corner would stay on the map and miss what is placed.
pub open spec fn fits(s: Slot, c: Corner, bounds: Area, placed: Seq<Area>) -> bool {
    &&& bounds.left <= claimed(s, c).left <= bounds.right
    &&& bounds.left <= claimed(s, c).right <= bounds.right
    &&& bounds.top <= claimed(s, c).top <= bounds.bottom
    &&& bounds.top <= claimed(s, c).bottom <= bounds.bottom
    &&& forall|k: int| 0 <= k < placed.len() ==> !meet(#[trigger] placed[k], claimed(s, c))
}

/// A name takes the first corner with room, in the order up right, up left, down
/// right, down left. One that must show and has room nowhere takes the first
/// corner on the map, or else the first of all; any other is then left out.
pub proof fn law_a_name_takes_the_first_corner_with_room(
    s: Slot,
    bounds: Area,
    placed: Seq<Area>,
    other: Corner,
)
    ensures
        ({
            let c = corner_for(s, bounds, placed);
            let none = Seq::<Area>::empty();
            &&& fits(s, other, bounds, placed) ==> c is Some && fits(s, c->0, bounds, placed)
                && turn_of(c->0) <= turn_of(other)
            &&& c is None ==> !s.must && !fits(s, other, bounds, placed)
            &&& c is Some && !s.must ==> fits(s, c->0, bounds, placed)
            &&& c is Some && !fits(s, c->0, bounds, placed) ==> s.must && (fits(
                s,
                other,
                bounds,
                none,
            ) ==> fits(s, c->0, bounds, none) && turn_of(c->0) <= turn_of(other))
            &&& c is Some && !fits(s, c->0, bounds, none) ==> c->0 == Corner::UpRight
        }),
{
    let none = Seq::<Area>::empty();
    assert(none =~= seq![]);
    assert(fits(s, other, bounds, placed) == is_clear(s, other, bounds, placed));
    assert(fits(s, Corner::UpRight, bounds, placed) == is_clear(
        s,
        Corner::UpRight,
        bounds,
        placed,
    ));
    assert(fits(s, Corner::UpLeft, bounds, placed) == is_clear(s, Corner::UpLeft, bounds, placed));
    assert(fits(s, Corner::DownRight, bounds, placed) == is_clear(
        s,
        Corner::DownRight,
        bounds,
        placed,
    ));
    assert(fits(s, Corner::DownLeft, bounds, placed) == is_clear(
        s,
        Corner::DownLeft,
        bounds,
        placed,
    ));
    assert(fits(s, other, bounds, none) == is_clear(s, other, bounds, none));
    assert(fits(s, Corner::UpRight, bounds, none) == is_clear(s, Corner::UpRight, bounds, none));
    assert(fits(s, Corner::UpLeft, bounds, none) == is_clear(s, Corner::UpLeft, bounds, none));
    assert(fits(s, Corner::DownRight, bounds, none) == is_clear(s, Corner::DownRight, bounds, none));
    assert(fits(s, Corner::DownLeft, bounds, none) == is_clear(s, Corner::DownLeft, bounds, none));
}

/// Each name of a plan is at the corner it takes given those before it.
pub proof fn law_a_plan_gives_each_name_its_corner(slots: Seq<Slot>, bounds: Area, p: int)
    requires
        0 <= p < full_plan(slots, bounds).len(),
    ensures
        corner_for(
            slots[full_plan(slots, bounds)[p].0],
            bounds,
            claims(slots, full_plan(slots, bounds).take(p)),
        ) == Some(full_plan(slots, bounds)[p].1),
{
    let n = lemma_planned_turn(slots, bounds, placing_order(slots, slots.len() as int), p);
}

/// What must show goes before what need not, then the lower rank, then the lower
/// key; and no two names each go before the other.
pub proof fn law_what_decides_the_order(a: Slot, b: Slot)
    ensures
        a.must && !b.must ==> goes_before(a, b),
        a.must == b.must && a.rank < b.rank ==> goes_before(a, b),
        a.must == b.must && a.rank == b.rank && a.key < b.key ==> goes_before(a, b),
        goes_before(a, b) ==> !goes_before(b, a),
        a.must == b.must && a.rank == b.rank && a.key == b.key ==> !goes_before(a, b),
{
}

/// No line of a label is wider or taller than what room is claimed for; the claim
/// is the widest line's width and the tallest's height, and nothing where no line
/// has any.
pub proof fn law_no_line_is_larger_than_its_claim(l: MapLabel)
    ensures
        ({
            let s = slot_of(l);
            let n = l.lines@.len() as int;
            &&& s.w >= 0 && s.line_h >= 0
            &&& forall|k: int|
                0 <= k < n ==> (#[trigger] l.lines@[k]).w <= s.w && l.lines@[k].h <= s.line_h
            &&& s.w > 0 ==> exists|k: int| 0 <= k < n && (#[trigger] l.lines@[k]).w == s.w
            &&& s.line_h > 0 ==> exists|k: int|
                0 <= k < n && (#[trigger] l.lines@[k]).h == s.line_h
            &&& n > 0 && (n - 1) * PITCH + s.line_h > i64::MAX ==> s.h == i64::MAX
            &&& n > 0 && (n - 1) * PITCH + s.line_h <= i64::MAX ==> s.h == (n - 1) * PITCH
                + s.line_h
            &&& PITCH == 10 * ONE
        }),
{
    lemma_widest_and_tallest(l.lines@);
    let n = l.lines@.len() as int;
    if n > 0 {
        assert((n - 1) * PITCH >= 0) by (nonlinear_arith)
            requires
                n >= 1,
                PITCH > 0,
        ;
    }
}

/// What is said of a plan and of a box over integers is what they hold.
pub proof fn law_a_plan_is_seen_as_it_is(v: Seq<(usize, Corner)>, i: int, r: Rect)
    requires
        0 <= i < v.len(),
    ensures
        plan_view(v).len() == v.len(),
        plan_view(v)[i].0 == v[i].0 && plan_view(v)[i].1 == v[i].1,
        r@.left == r.left && r@.right == r.right && r@.top == r.top && r@.bottom == r.bottom,
{
}

} // verus!
