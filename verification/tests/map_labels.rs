//! Names beside the symbols on a map.
use sdroxide::fixed::ONE;
use sdroxide::map_labels::{draw, plan, Corner, LineSize, MapLabel, Pos, Rect, Slot};

fn one() -> i128 {
    i128::from(ONE)
}

/// A box from the origin, in points.
fn map(w: i128, h: i128) -> Rect {
    Rect { left: 0, top: 0, right: w * one(), bottom: h * one() }
}

fn bounds() -> Rect {
    map(200, 100)
}

/// A two-line name 40 points wide, 10-point lines, off a symbol at `(x, y)`.
fn slot(x: i64, y: i64, must: bool, rank: u8) -> Slot {
    Slot {
        x: x * ONE,
        y: y * ONE,
        r: 5 * ONE,
        w: 40 * ONE,
        h: 20 * ONE,
        line_h: 10 * ONE,
        must,
        rank,
        key: 0,
    }
}

fn only(placed: &[(usize, Corner)]) -> Vec<usize> {
    placed.iter().map(|&(i, _)| i).collect()
}

/// The usual corner is where the names have always sat: the last line centred
/// half a line above the tick's end, the block starting two points right of it.
#[test]
fn a_name_sits_up_and_to_the_right_where_it_always_did() {
    let s = slot(100, 50, false, 1);
    let anchor = s.anchor(Corner::UpRight);
    assert_eq!(anchor, Pos { x: 108 * one(), y: 43 * one() });
    let block = s.block(Corner::UpRight);
    assert_eq!(block.left, anchor.x + 2 * one());
    // Last line's middle = anchor.y - 5; its bottom half a line below that.
    assert_eq!(block.bottom, anchor.y - 5 * one() + 5 * one());
    assert_eq!(plan(&vec![s], bounds()), vec![(0, Corner::UpRight)]);
}

/// A name with no room up and to the right, at the map's right or top edge,
/// moves to a corner that has some rather than vanishing.
#[test]
fn a_name_at_the_edge_moves_to_a_corner_with_room() {
    assert_eq!(plan(&vec![slot(190, 50, false, 1)], bounds()), vec![(0, Corner::UpLeft)]);
    assert_eq!(plan(&vec![slot(20, 5, false, 1)], bounds()), vec![(0, Corner::DownRight)]);
    assert_eq!(plan(&vec![slot(190, 5, false, 1)], bounds()), vec![(0, Corner::DownLeft)]);
    // Flush right when it is on the left, so it still hugs its tick.
    let s = slot(190, 50, false, 1);
    assert_eq!(s.block(Corner::UpLeft).right, s.anchor(Corner::UpLeft).x - 2 * one());
    // Below, the first line sits as far under the tick as the last one sits
    // over it above, whatever the font makes a line's height.
    let s = Slot { line_h: 12 * ONE, h: 22 * ONE, ..slot(100, 50, false, 1) };
    let below = s.block(Corner::DownRight).top - s.anchor(Corner::DownRight).y;
    let above = s.anchor(Corner::UpRight).y - s.block(Corner::UpRight).bottom;
    assert_eq!(below, above);
}

/// A map too busy for every name keeps the ones that say the most, by rank.
#[test]
fn a_crowded_map_keeps_the_names_that_matter() {
    // A map with room for one name, beside one spot, and two symbols on it: the
    // better-ranked one wins.
    let narrow = map(60, 32);
    let slots = vec![slot(4, 30, false, 3), slot(4, 30, false, 1)];
    assert_eq!(plan(&slots, narrow), vec![(1, Corner::UpRight)]);
    // Two symbols on top of each other on an open map: both names fit, one
    // either side.
    let slots = vec![slot(100, 50, false, 3), slot(100, 50, false, 1)];
    assert_eq!(plan(&slots, bounds()), vec![(1, Corner::UpRight), (0, Corner::UpLeft)]);
}

/// Two names of the same rank after the same room: the lower key wins,
/// whichever order the tracker happened to list them in.
#[test]
fn a_tie_in_rank_goes_to_the_lower_key_not_the_list_order() {
    let narrow = map(60, 32);
    let a = || Slot { key: 244_000_002, ..slot(4, 30, false, 1) };
    let b = || Slot { key: 244_000_001, ..slot(4, 30, false, 1) };
    assert_eq!(only(&plan(&vec![a(), b()], narrow)), vec![1]);
    assert_eq!(only(&plan(&vec![b(), a()], narrow)), vec![0]);
}

/// The name the operator picked or is pointing at is placed first and drawn
/// whatever else is around it, so a crowded map culls *around* it rather than
/// through it.
#[test]
fn the_name_the_operator_is_looking_at_always_shows() {
    // A must-label takes the room from a better-ranked one...
    let narrow = map(60, 32);
    let slots = vec![slot(4, 30, true, 3), slot(4, 30, false, 0)];
    assert_eq!(only(&plan(&slots, narrow)), vec![0]);
    // ...and where no corner has room it is drawn anyway, up and to the right,
    // where the painter clips it.
    let tiny = map(20, 20);
    assert_eq!(plan(&vec![slot(10, 10, true, 3)], tiny), vec![(0, Corner::UpRight)]);
}

/// A name with no room anywhere on the map does not show, unless it must.
#[test]
fn a_name_with_no_room_is_dropped_unless_it_must_show() {
    let tiny = map(20, 20);
    assert!(plan(&vec![slot(10, 10, false, 0)], tiny).is_empty());
}

/// Names that would touch do not both show; a point apart they do.
#[test]
fn names_that_touch_collide() {
    let a = Rect { left: 0, top: 0, right: 10, bottom: 10 };
    let b = Rect { left: 10, top: 10, right: 20, bottom: 20 };
    let c = Rect { left: 11, top: 0, right: 20, bottom: 10 };
    assert!(a.intersects(b) && b.intersects(a));
    assert!(!a.intersects(c) && !c.intersects(a));
    assert!(map(10, 10).contains_rect(map(10, 10)));
    assert!(!map(10, 10).contains_rect(map(11, 10)));
}

/// Between equals the one listed first goes first.
#[test]
fn equals_keep_their_listing_order() {
    let slots = vec![slot(100, 50, false, 1), slot(100, 50, false, 1), slot(30, 80, true, 9)];
    assert_eq!(only(&plan(&slots, bounds())), vec![2, 0, 1]);
    assert!(plan(&Vec::new(), bounds()).is_empty());
}

/// A label is drawn line by line beside its tick; one without lines is not
/// drawn.
#[test]
fn a_label_is_drawn_line_by_line() {
    let label = |x: i64, lines: Vec<LineSize>| MapLabel {
        x: x * ONE,
        y: 50 * ONE,
        r: 5 * ONE,
        tick_from: ONE / 2,
        lines,
        must: false,
        rank: 1,
        key: x as u32,
    };
    let two = || {
        vec![LineSize { w: 30 * ONE, h: 10 * ONE }, LineSize { w: 40 * ONE, h: 12 * ONE }]
    };
    let labels = vec![label(10, Vec::new()), label(60, two()), label(190, two())];
    let drawn = draw(bounds(), &labels);
    let at = |x: i128, y: i128| Pos { x: x * one() / 2, y: y * one() / 2 };

    // Up and to the right: block from (70, 43 - 5 + 6 - 22).
    assert_eq!((drawn.len(), drawn[0].label, drawn[1].label), (2, 1, 2));
    assert_eq!(drawn[0].tick_start, at(125, 95));
    assert_eq!(drawn[0].tick_end, at(136, 86));
    assert_eq!(drawn[0].lines, vec![at(140, 44), at(140, 64)]);

    // Up and to the left, each line flush right against 180.
    assert_eq!(drawn[1].tick_start, at(375, 95));
    assert_eq!(drawn[1].tick_end, at(364, 86));
    assert_eq!(drawn[1].lines, vec![at(300, 44), at(280, 64)]);
}
