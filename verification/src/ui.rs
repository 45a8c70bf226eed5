//! Screen-state types and the small pure computations the render loop
//! relies on: scroll positioning, spinner frames and the digit glyphs of
//! the welcome animation.

use vstd::prelude::*;
use vstd::string::StringSliceAdditionalSpecFns;

verus! {

/// The application's screens.
#[derive(Debug, Clone, PartialEq, Eq, Structural)]
pub enum Screen {
    /// The main search interface.
    Search,
    /// The entry detail view.
    Detail,
    /// The graph visualization.
    Graph,
    /// The rolling auto-refresh display.
    Webcam,
    /// The settings screen.
    Settings,
}

/// Input mode for text entry.
#[derive(Debug, Clone, PartialEq, Eq, Structural)]
pub enum InputMode {
    /// Keys navigate.
    Normal,
    /// Keys edit the input line.
    Editing,
}

/// Focus state for the search screen's panels.
#[derive(Debug, Clone, Copy, PartialEq, Eq, Structural)]
pub enum SearchFocus {
    /// The query input line.
    Input,
    /// The result list.
    Results,
    /// The history panel.
    History,
    /// The bookmarks panel.
    Bookmarks,
}

/// Focus state for the rolling display's panels.
#[derive(Debug, Clone, Copy, PartialEq, Eq, Structural)]
pub enum WebcamFocus {
    /// The category list.
    Categories,
    /// The refresh-interval list.
    Intervals,
    /// The displayed entry.
    Sequence,
}

/// Focus state for the settings screen.
#[derive(Debug, Clone, Copy, PartialEq, Eq, Structural)]
pub enum SettingsFocus {
    /// The language list.
    Language,
    /// The theme list.
    Theme,
    /// The animation list.
    Animation,
}

/// Graph visualization types.
#[derive(Debug, Clone, PartialEq, Eq, Structural)]
pub enum GraphType {
    /// A connected line plot.
    Line,
    /// A scatter plot.
    Scatter,
    /// A scatter plot with logarithmic value axis.
    LogScatter,
    /// A pin (lollipop) plot.
    PinPlot,
}

/// Refresh intervals of the rolling display.
#[derive(Debug, Clone, Copy, PartialEq, Eq, Structural)]
pub enum WebcamInterval {
    /// No automatic refresh.
    Manual,
    /// Every five seconds.
    FiveSeconds,
    /// Every ten seconds.
    TenSeconds,
    /// Every twenty seconds.
    TwentySeconds,
    /// Every thirty seconds.
    ThirtySeconds,
    /// Every minute.
    OneMinute,
}

impl WebcamInterval {
    /// The refresh period in seconds, or nothing for manual refresh.
    pub fn as_duration(&self) -> (r: Option<u64>)
        ensures
            r == match self {
                WebcamInterval::Manual => None::<u64>,
                WebcamInterval::FiveSeconds => Some(5u64),
                WebcamInterval::TenSeconds => Some(10u64),
                WebcamInterval::TwentySeconds => Some(20u64),
                WebcamInterval::ThirtySeconds => Some(30u64),
                WebcamInterval::OneMinute => Some(60u64),
            },
    {
        match self {
            WebcamInterval::Manual => None,
            WebcamInterval::FiveSeconds => Some(5),
            WebcamInterval::TenSeconds => Some(10),
            WebcamInterval::TwentySeconds => Some(20),
            WebcamInterval::ThirtySeconds => Some(30),
            WebcamInterval::OneMinute => Some(60),
        }
    }
}

/// The scroll offset that keeps the selected item visible: zero when
/// everything fits, the selected index when it lies above the window,
/// the offset that puts it on the last visible line when it lies below,
/// and the current offset otherwise.
pub open spec fn spec_scroll_offset(
    selected_index: nat,
    total_items: nat,
    visible_items: nat,
    current_offset: nat,
) -> int {
    if total_items <= visible_items {
        0
    } else if selected_index < current_offset {
        selected_index as int
    } else if selected_index >= current_offset + visible_items {
        if visible_items >= 1 && selected_index >= visible_items - 1 {
            selected_index - (visible_items - 1)
        } else {
            0
        }
    } else {
        current_offset as int
    }
}

/// Calculate the scroll offset that keeps the selected item visible.
pub fn calculate_scroll_offset(
    selected_index: usize,
    total_items: usize,
    visible_items: usize,
    current_offset: u16,
) -> (r: u16)
    requires
        selected_index <= u16::MAX,
    ensures
        r as int == spec_scroll_offset(
            selected_index as nat,
            total_items as nat,
            visible_items as nat,
            current_offset as nat,
        ),
{
    if total_items <= visible_items {
        return 0;
    }
    let current: usize = current_offset as usize;
    if selected_index < current {
        return selected_index as u16;
    }
    if selected_index - current >= visible_items {
        let target = if visible_items >= 1 && selected_index >= visible_items - 1 {
            selected_index - (visible_items - 1)
        } else {
            0
        };
        return target as u16;
    }
    current_offset
}

/// The spinner glyph for an animation frame: the frame counter is halved
/// to slow the spin, then cycles through four glyphs.
pub open spec fn spec_spinner_char(frame: nat) -> char {
    let phase = (frame / 2) % 4;
    if phase == 0 {
        '|'
    } else if phase == 1 {
        '/'
    } else if phase == 2 {
        '-'
    } else {
        '\\'
    }
}

/// The spinner glyph for animation frame `frame`.
pub fn spinner_char(frame: usize) -> (r: char)
    ensures
        r == spec_spinner_char(frame as nat),
{
    match (frame / 2) % 4 {
        0 => '|',
        1 => '/',
        2 => '-',
        _ => '\\',
    }
}

/// The digit the animation shows at position `idx`: the bytes of the
/// entry's data text, cycled; `0` for an empty text.
pub open spec fn spec_sequence_digit(s: Seq<u8>, idx: nat) -> u8 {
    if s.len() == 0 {
        48
    } else {
        s[(idx % s.len()) as int]
    }
}

/// The byte of `seq` the animation shows at position `idx`, cycling
/// through the text and falling back to `0` when it is empty.
pub fn sequence_digit(seq: &str, idx: usize) -> (r: u8)
    ensures
        r == spec_sequence_digit(seq.spec_bytes(), idx as nat),
{
    let bytes = seq.as_bytes();
    if bytes.len() == 0 {
        return 48;
    }
    bytes[idx % bytes.len()]
}

/// The glyph drawn for a digit byte: the digit's value modulo ten picks
/// one of ten block glyphs.
pub fn digit_symbol(digit: u8) -> (r: &'static str)
    ensures
        ({
            let v = (if digit >= 48 {
                (digit - 48) as int
            } else {
                0int
            }) % 10;
            r@ == (if v == 0 {
                "0"@
            } else if v == 1 {
                "1"@
            } else if v == 2 {
                "2"@
            } else if v == 3 {
                "3"@
            } else if v == 4 {
                "4"@
            } else if v == 5 {
                "5"@
            } else if v == 6 {
                "6"@
            } else if v == 7 {
                "7"@
            } else if v == 8 {
                "8"@
            } else {
                "9"@
            })
        }),
{
    let base = if digit >= 48 {
        digit - 48
    } else {
        0
    };
    match base % 10 {
        0 => "0",
        1 => "1",
        2 => "2",
        3 => "3",
        4 => "4",
        5 => "5",
        6 => "6",
        7 => "7",
        8 => "8",
        _ => "9",
    }
}

} // verus!
