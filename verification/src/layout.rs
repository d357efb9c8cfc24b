//! Geometry and colours of the desktop bar: where each control goes for a
//! given client area, how the owner-drawn buttons and the status text look.
use vstd::prelude::*;
use crate::config::SLOT_COUNT;

verus! {

/// A rectangle given by its top-left corner and its size.
#[derive(Clone, Copy, Debug, PartialEq, Eq)]
pub struct Rect {
    pub x: i32,
    pub y: i32,
    pub width: i32,
    pub height: i32,
}

/// The four controls of one slot: number label, enable switch, key box and
/// interval box.
#[derive(Clone, Copy, Debug, PartialEq, Eq)]
pub struct SlotRects {
    pub label: Rect,
    pub toggle: Rect,
    pub key: Rect,
    pub timer: Rect,
}

/// Where every control of the bar goes.
#[derive(Clone, Debug, PartialEq, Eq)]
pub struct BarLayout {
    pub input_label: Rect,
    pub mode: Rect,
    pub status: Rect,
    pub slots: Vec<SlotRects>,
    pub start: Rect,
    pub stop: Rect,
    pub save: Rect,
    pub load: Rect,
}

pub open spec fn max_int(a: int, b: int) -> int {
    if a >= b {
        a
    } else {
        b
    }
}

/// Integer division rounding toward zero, as `/` does on `i32`.
pub open spec fn div_toward_zero(a: int, b: int) -> int {
    if a >= 0 {
        a / b
    } else {
        -((-a) / b)
    }
}

pub open spec fn rect(x: int, y: int, width: int, height: int) -> Rect {
    Rect { x: x as i32, y: y as i32, width: width as i32, height: height as i32 }
}

/// The top of the button row for a client area `bottom` pixels high.
pub open spec fn footer_top(bottom: int) -> int {
    max_int(max_int(bottom, 1) - 34, 66)
}

/// The top of the slot row, centred in the strip between header and buttons.
pub open spec fn row_top(bottom: int) -> int {
    let strip_h = max_int(footer_top(bottom) - 38 - 4, 28);
    38 + max_int(strip_h - 28, 0) / 2
}

/// The left edge of slot `i` when the slots share a bar `w` pixels wide.
pub open spec fn slot_left(w: int, i: int) -> int {
    8 + div_toward_zero((w - 16) * i, SLOT_COUNT as int)
}

pub open spec fn spec_slot_rects(w: int, row: int, i: int) -> SlotRects {
    let x = slot_left(w, i);
    let next = slot_left(w, i + 1);
    SlotRects {
        label: rect(x, row + 5, 16, 18),
        toggle: rect(x + 17, row + 1, 22, 26),
        key: rect(x + 41, row, max_int(next - x - 94, 34), 28),
        timer: rect(next - 49, row, 45, 28),
    }
}

/// The bar's layout for a client area `right` pixels wide and `bottom`
/// pixels high: mode and status at the top right, the eight slots side by
/// side in the middle, the buttons at the bottom left.
pub open spec fn spec_layout_ok(l: BarLayout, right: int, bottom: int) -> bool {
    let w = max_int(right, 1);
    let row = row_top(bottom);
    let button_y = footer_top(bottom) + 2;
    &&& l.input_label == rect(w - 420, 7, 45, 20)
    &&& l.mode == rect(w - 370, 4, 130, 26)
    &&& l.status == rect(w - 225, 7, 130, 22)
    &&& l.slots@.len() == SLOT_COUNT
    &&& forall|i: int| 0 <= i < SLOT_COUNT ==> #[trigger] l.slots@[i] == spec_slot_rects(w, row, i)
    &&& l.start == rect(8, button_y, 105, 30)
    &&& l.stop == rect(120, button_y, 90, 30)
    &&& l.save == rect(217, button_y, 80, 30)
    &&& l.load == rect(304, button_y, 80, 30)
}

/// The layout of the bar for the client area `(0, 0)`–`(right, bottom)`.
/// The bar is at most `i32::MAX / 8 + 16` pixels wide, so that positions fit.
pub fn layout(right: i32, bottom: i32) -> (l: BarLayout)
    requires
        right - 16 <= i32::MAX / 8,
    ensures
        spec_layout_ok(l, right as int, bottom as int),
{
    let w = if right >= 1 {
        right
    } else {
        1
    };
    let h = if bottom >= 1 {
        bottom
    } else {
        1
    };
    let footer_y = if h - 34 >= 66 {
        h - 34
    } else {
        66
    };
    let strip_h = if footer_y - 38 - 4 >= 28 {
        footer_y - 38 - 4
    } else {
        28
    };
    let row_y = 38 + (if strip_h - 28 >= 0 {
        strip_h - 28
    } else {
        0
    }) / 2;
    assert(footer_y == footer_top(bottom as int));
    assert(row_y == row_top(bottom as int));
    let mut slots: Vec<SlotRects> = Vec::new();
    let mut i: i32 = 0;
    while i < SLOT_COUNT as i32
        invariant
            0 <= i <= SLOT_COUNT,
            w == max_int(right as int, 1),
            1 <= w,
            w - 16 <= i32::MAX / 8,
            row_y == row_top(bottom as int),
            38 <= row_y <= i32::MAX / 2 + 40,
            slots@.len() == i,
            forall|k: int| 0 <= k < i ==> #[trigger] slots@[k] == spec_slot_rects(w as int, row_y as int, k),
        decreases SLOT_COUNT - i,
    {
        assert(-120 <= (w - 16) * i <= i32::MAX / 8 * 8) by (nonlinear_arith)
            requires
                0 <= i <= 8,
                1 <= w,
                w - 16 <= i32::MAX / 8,
        ;
        assert(-120 <= (w - 16) * (i + 1) <= i32::MAX / 8 * 8) by (nonlinear_arith)
            requires
                0 <= i < 8,
                1 <= w,
                w - 16 <= i32::MAX / 8,
        ;
        let x = 8 + (w - 16) * i / 8;
        let next = 8 + (w - 16) * (i + 1) / 8;
        assert(x == slot_left(w as int, i as int));
        assert(next == slot_left(w as int, i + 1));
        let slot_width = next - x;
        let key_width = if slot_width - 94 >= 34 {
            slot_width - 94
        } else {
            34
        };
        slots.push(
            SlotRects {
                label: Rect { x, y: row_y + 5, width: 16, height: 18 },
                toggle: Rect { x: x + 17, y: row_y + 1, width: 22, height: 26 },
                key: Rect { x: x + 41, y: row_y, width: key_width, height: 28 },
                timer: Rect { x: next - 49, y: row_y, width: 45, height: 28 },
            },
        );
        i += 1;
    }
    let button_y = footer_y + 2;
    BarLayout {
        input_label: Rect { x: w - 420, y: 7, width: 45, height: 20 },
        mode: Rect { x: w - 370, y: 4, width: 130, height: 26 },
        status: Rect { x: w - 225, y: 7, width: 130, height: 22 },
        slots,
        start: Rect { x: 8, y: button_y, width: 105, height: 30 },
        stop: Rect { x: 120, y: button_y, width: 90, height: 30 },
        save: Rect { x: 217, y: button_y, width: 80, height: 30 },
        load: Rect { x: 304, y: button_y, width: 80, height: 30 },
    }
}

/// A rectangle given by its edges, as Windows' `RECT`.
#[derive(Clone, Copy, Debug, PartialEq, Eq)]
pub struct Bounds {
    pub left: i32,
    pub top: i32,
    pub right: i32,
    pub bottom: i32,
}

/// The painted background: header band, slot strip, button band, the
/// separators between slots, and where the hotkey hint is written.
#[derive(Clone, Debug, PartialEq, Eq)]
pub struct PaintRegions {
    pub header: Bounds,
    pub strip: Bounds,
    pub footer: Bounds,
    pub separators: Vec<Bounds>,
    pub hint_y: i32,
}

pub open spec fn paint_footer_top(bottom: int) -> int {
    max_int(bottom - 34, 34)
}

pub open spec fn bounds(left: int, top: int, right: int, bottom: int) -> Bounds {
    Bounds { left: left as i32, top: top as i32, right: right as i32, bottom: bottom as i32 }
}

/// The separator left of slot `i` (for `i` from 1 to 7).
pub open spec fn spec_separator(right: int, bottom: int, i: int) -> Bounds {
    let x = div_toward_zero(right * i, SLOT_COUNT as int);
    bounds(x, 38, x + 1, paint_footer_top(bottom) - 4)
}

pub open spec fn spec_paint_ok(p: PaintRegions, right: int, bottom: int) -> bool {
    let f = paint_footer_top(bottom);
    &&& p.header == bounds(0, 0, right, 34)
    &&& p.strip == bounds(0, 34, right, f)
    &&& p.footer == bounds(0, f, right, bottom)
    &&& p.separators@.len() == SLOT_COUNT - 1
    &&& forall|k: int|
        0 <= k < SLOT_COUNT - 1 ==> #[trigger] p.separators@[k] == spec_separator(right, bottom, k + 1)
    &&& p.hint_y == (f + 10) as i32
}

/// The painted regions of a client area `(0, 0)`–`(right, bottom)`, for
/// sizes whose separator positions (up to `7 * right`) and footer top
/// (`bottom - 34`) fit in `i32`; the hint row always fits.
pub fn paint_regions(right: i32, bottom: i32) -> (p: PaintRegions)
    requires
        i32::MIN <= right * 7 <= i32::MAX,
        i32::MIN + 34 <= bottom,
    ensures
        spec_paint_ok(p, right as int, bottom as int),
{
    let footer_y = if bottom - 34 >= 34 {
        bottom - 34
    } else {
        34
    };
    let mut separators: Vec<Bounds> = Vec::new();
    let mut i: i32 = 1;
    while i < SLOT_COUNT as i32
        invariant
            1 <= i <= SLOT_COUNT,
            i32::MIN <= right * 7 <= i32::MAX,
            footer_y == paint_footer_top(bottom as int),
            34 <= footer_y <= i32::MAX,
            separators@.len() == i - 1,
            forall|k: int|
                0 <= k < i - 1 ==> #[trigger] separators@[k] == spec_separator(
                    right as int,
                    bottom as int,
                    k + 1,
                ),
        decreases SLOT_COUNT - i,
    {
        assert(i32::MIN <= right * i <= i32::MAX) by (nonlinear_arith)
            requires
                1 <= i <= 7,
                i32::MIN <= right * 7 <= i32::MAX,
        ;
        let x = right * i / 8;
        separators.push(Bounds { left: x, top: 38, right: x + 1, bottom: footer_y - 4 });
        i += 1;
    }
    PaintRegions {
        header: Bounds { left: 0, top: 0, right, bottom: 34 },
        strip: Bounds { left: 0, top: 34, right, bottom: footer_y },
        footer: Bounds { left: 0, top: footer_y, right, bottom },
        separators,
        hint_y: footer_y + 10,
    }
}

} // verus!
