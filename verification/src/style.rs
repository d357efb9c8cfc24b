//! Colours and text placement of the desktop bar (colours are Windows
//! `COLORREF` values, `0x00BBGGRR`).
use vstd::prelude::*;
use crate::layout::{div_toward_zero, max_int};
use crate::ui::{ID_LOAD, ID_SAVE, ID_START, ID_STOP};

verus! {

pub const TEXT_COLOR: u32 = 0x00F1F4F7;
pub const ACCENT_COLOR: u32 = 0x00E89724;
pub const BUTTON_COLOR: u32 = 0x00343C45;
pub const DISABLED_COLOR: u32 = 0x0023292F;
pub const PRESSED_COLOR: u32 = 0x0036A8F5;
pub const DISABLED_TEXT_COLOR: u32 = 0x00758089;
pub const INPUT_COLOR: u32 = 0x00312B25;
pub const FRAME_BUTTON_COLOR: u32 = 0x002C343C;

/// How an owner-drawn button is painted.
#[derive(Clone, Copy, Debug, PartialEq, Eq)]
pub struct ButtonFace {
    pub background: u32,
    pub foreground: u32,
    pub text: &'static str,
}

/// The `ODS_DISABLED` bit of an owner-draw item state.
pub open spec fn is_disabled(item_state: u32) -> bool {
    (item_state / 4) % 2 == 1
}

/// The `ODS_SELECTED` (pressed) bit of an owner-draw item state.
pub open spec fn is_pressed(item_state: u32) -> bool {
    item_state % 2 == 1
}

/// The face of the owner-drawn button `id` in state `item_state`: Start in
/// the accent colour, Stop, Save and Load in the button colour; a disabled
/// button is dimmed, a pressed one highlighted. Other controls are not
/// owner-drawn.
pub open spec fn spec_button_face(id: usize, item_state: u32) -> Option<(u32, u32, Seq<char>)> {
    let base = if id == ID_START {
        Some((ACCENT_COLOR, 0x00FFFFFFu32, "Start"@))
    } else if id == ID_STOP {
        Some((BUTTON_COLOR, TEXT_COLOR, "Stop"@))
    } else if id == ID_SAVE {
        Some((BUTTON_COLOR, TEXT_COLOR, "Save"@))
    } else if id == ID_LOAD {
        Some((BUTTON_COLOR, TEXT_COLOR, "Load"@))
    } else {
        None
    };
    match base {
        None => None,
        Some((bg, fg, text)) => Some(
            (
                if is_disabled(item_state) {
                    DISABLED_COLOR
                } else if is_pressed(item_state) {
                    PRESSED_COLOR
                } else {
                    bg
                },
                if is_disabled(item_state) {
                    DISABLED_TEXT_COLOR
                } else {
                    fg
                },
                text,
            ),
        ),
    }
}

/// The face of the owner-drawn button `id` in state `item_state`.
pub fn button_face(id: usize, item_state: u32) -> (f: Option<ButtonFace>)
    ensures
        match f {
            Some(b) => spec_button_face(id, item_state) == Some(
                (b.background, b.foreground, b.text@),
            ),
            None => spec_button_face(id, item_state) is None,
        },
{
    let (background, foreground, text): (u32, u32, &'static str) = if id == ID_START {
        (ACCENT_COLOR, 0x00FFFFFF, "Start")
    } else if id == ID_STOP {
        (BUTTON_COLOR, TEXT_COLOR, "Stop")
    } else if id == ID_SAVE {
        (BUTTON_COLOR, TEXT_COLOR, "Save")
    } else if id == ID_LOAD {
        (BUTTON_COLOR, TEXT_COLOR, "Load")
    } else {
        return None;
    };
    let disabled = item_state & 0x0004 != 0;
    let pressed = item_state & 0x0001 != 0;
    assert(disabled == is_disabled(item_state)) by {
        assert((item_state & 0x0004 != 0) == ((item_state / 4) % 2 == 1)) by (bit_vector);
    }
    assert(pressed == is_pressed(item_state)) by {
        assert((item_state & 0x0001 != 0) == (item_state % 2 == 1)) by (bit_vector);
    }
    let color = if disabled {
        DISABLED_COLOR
    } else if pressed {
        PRESSED_COLOR
    } else {
        background
    };
    let text_color = if disabled {
        DISABLED_TEXT_COLOR
    } else {
        foreground
    };
    Some(ButtonFace { background: color, foreground: text_color, text })
}

pub open spec fn min_int(a: int, b: int) -> int {
    if a <= b {
        a
    } else {
        b
    }
}

/// Where a button text of `chars` characters (8 pixels each) starts so that
/// it is centred in the button `(left, top)`–`(right, bottom)`.
pub open spec fn spec_text_origin(left: int, top: int, right: int, bottom: int, chars: int) -> (int, int) {
    let width = right - left;
    let text_width = min_int(chars * 8, width - 8);
    (left + max_int(width - text_width, 0) / 2, top + max_int(div_toward_zero(bottom - top - 16, 2), 0))
}

/// Where a button text of `chars` characters starts, for a button whose
/// size and text position fit in `i32`.
pub fn text_origin(left: i32, top: i32, right: i32, bottom: i32, chars: i32) -> (p: (i32, i32))
    requires
        0 <= chars <= 0x0FFF_FFFF,
        i32::MIN <= right - left - 8,
        right - left <= i32::MAX,
        i32::MIN <= bottom - top - 16,
        bottom - top <= i32::MAX,
        spec_text_origin(left as int, top as int, right as int, bottom as int, chars as int).0 <= i32::MAX,
        spec_text_origin(left as int, top as int, right as int, bottom as int, chars as int).1 <= i32::MAX,
        i32::MIN <= spec_text_origin(left as int, top as int, right as int, bottom as int, chars as int).0,
        i32::MIN <= spec_text_origin(left as int, top as int, right as int, bottom as int, chars as int).1,
    ensures
        (p.0 as int, p.1 as int) == spec_text_origin(
            left as int,
            top as int,
            right as int,
            bottom as int,
            chars as int,
        ),
{
    let width = right - left;
    let text_width = if chars * 8 <= width - 8 {
        chars * 8
    } else {
        width - 8
    };
    let slack = width as i64 - text_width as i64;
    let x = left as i64 + (if slack >= 0 {
        slack
    } else {
        0
    }) / 2;
    let half = (bottom - top - 16) / 2;
    let y = top + (if half >= 0 {
        half
    } else {
        0
    });
    (x as i32, y)
}

/// The three states the status text shows.
#[derive(Clone, Copy, Debug, PartialEq, Eq)]
pub enum Status {
    Stopped,
    Running,
    Error,
}

/// How the bar shows a status: its text and colour, and which of Start and
/// Stop can be pressed (Stop only while running).
#[derive(Clone, Copy, Debug, PartialEq, Eq)]
pub struct StatusStyle {
    pub text: &'static str,
    pub color: u32,
    pub start_enabled: bool,
    pub stop_enabled: bool,
}

pub open spec fn spec_status_text(s: Status) -> Seq<char> {
    match s {
        Status::Stopped => "\u{25cf} Stopped"@,
        Status::Running => "\u{25cf} Running"@,
        Status::Error => "\u{25cf} Error"@,
    }
}

pub open spec fn spec_status_color(s: Status) -> u32 {
    match s {
        Status::Stopped => 0x009B9187,
        Status::Running => 0x008EC748,
        Status::Error => 0x006060E0,
    }
}

/// How the bar shows `status`.
pub fn status_style(status: Status) -> (s: StatusStyle)
    ensures
        s.text@ == spec_status_text(status),
        s.color == spec_status_color(status),
        s.start_enabled == (status != Status::Running),
        s.stop_enabled == (status == Status::Running),
{
    match status {
        Status::Stopped => StatusStyle {
            text: "\u{25cf} Stopped",
            color: 0x009B9187,
            start_enabled: true,
            stop_enabled: false,
        },
        Status::Running => StatusStyle {
            text: "\u{25cf} Running",
            color: 0x008EC748,
            start_enabled: false,
            stop_enabled: true,
        },
        Status::Error => StatusStyle {
            text: "\u{25cf} Error",
            color: 0x006060E0,
            start_enabled: true,
            stop_enabled: false,
        },
    }
}

/// The kinds of child control whose colours the bar chooses.
#[derive(Clone, Copy, Debug, PartialEq, Eq)]
pub enum ControlKind {
    Static,
    Edit,
    Button,
}

/// The brushes the bar keeps for painting control backgrounds.
#[derive(Clone, Copy, Debug, PartialEq, Eq)]
pub enum BrushChoice {
    Background,
    Input,
    Button,
    Accent,
}

/// How a child control is coloured: a transparent or filled text
/// background (with its colour), the text colour and the brush returned.
#[derive(Clone, Copy, Debug, PartialEq, Eq)]
pub struct ControlStyle {
    pub transparent: bool,
    pub background: u32,
    pub text: u32,
    pub brush: BrushChoice,
}

/// The colours of a child control: labels are transparent on the bar's
/// background (the status label in its status colour), edit boxes are
/// filled with the input colour, buttons with the accent colour for Start
/// and the button colour otherwise.
pub open spec fn spec_control_style(kind: ControlKind, is_status: bool, is_start: bool, status_color: u32) -> ControlStyle {
    match kind {
        ControlKind::Static => ControlStyle {
            transparent: true,
            background: 0,
            text: if is_status {
                status_color
            } else {
                TEXT_COLOR
            },
            brush: BrushChoice::Background,
        },
        ControlKind::Edit => ControlStyle {
            transparent: false,
            background: INPUT_COLOR,
            text: TEXT_COLOR,
            brush: BrushChoice::Input,
        },
        ControlKind::Button => ControlStyle {
            transparent: false,
            background: if is_start {
                ACCENT_COLOR
            } else {
                FRAME_BUTTON_COLOR
            },
            text: TEXT_COLOR,
            brush: if is_start {
                BrushChoice::Accent
            } else {
                BrushChoice::Button
            },
        },
    }
}

/// The colours of a child control of kind `kind`; `is_status` and
/// `is_start` tell whether it is the status label or the Start button.
pub fn control_style(kind: ControlKind, is_status: bool, is_start: bool, status_color: u32) -> (s: ControlStyle)
    ensures
        s == spec_control_style(kind, is_status, is_start, status_color),
{
    match kind {
        ControlKind::Static => ControlStyle {
            transparent: true,
            background: 0,
            text: if is_status {
                status_color
            } else {
                TEXT_COLOR
            },
            brush: BrushChoice::Background,
        },
        ControlKind::Edit => ControlStyle {
            transparent: false,
            background: INPUT_COLOR,
            text: TEXT_COLOR,
            brush: BrushChoice::Input,
        },
        ControlKind::Button => ControlStyle {
            transparent: false,
            background: if is_start {
                ACCENT_COLOR
            } else {
                FRAME_BUTTON_COLOR
            },
            text: TEXT_COLOR,
            brush: if is_start {
                BrushChoice::Accent
            } else {
                BrushChoice::Button
            },
        },
    }
}

} // verus!
