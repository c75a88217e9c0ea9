//! Where the screens put their rows, and how a time limit is spelled.

use vstd::prelude::*;

verus! {

/// A rectangle of terminal cells.
#[derive(Debug, Clone, Copy, PartialEq, Eq, Structural)]
pub struct Area {
    pub x: u16,
    pub y: u16,
    pub width: u16,
    pub height: u16,
}

/// The rows of the area are numbered within `u16`.
pub open spec fn fits_in_u16(area: Area) -> bool {
    area.y + area.height <= u16::MAX && area.x + area.width <= u16::MAX
}

/// Whether `area` is numbered within `u16`.
pub fn area_fits(area: Area) -> (res: bool)
    ensures
        res == fits_in_u16(area),
{
    area.y as u32 + area.height as u32 <= u16::MAX as u32 && area.x as u32 + area.width as u32
        <= u16::MAX as u32
}

/// `area.height - 1`, or 0 for an empty area.
pub open spec fn height_less_one(area: Area) -> int {
    if area.height >= 1 {
        area.height - 1
    } else {
        0
    }
}

/// The first row of a block of `total` rows placed around the middle of the
/// area (menu and typing screens).
pub open spec fn middle_top_row(area: Area, total: u16) -> int {
    area.y + height_less_one(area) / 2 - total / 2
}

/// The first row of a block of `total` rows centred in the area (mode,
/// settings and result screens).
pub open spec fn centered_top_row(area: Area, total: u16) -> int {
    area.y + (area.height - total) / 2
}

/// `middle_top` lies within `u16` and the area is numbered within `u16`.
pub open spec fn middle_top_in_range(area: Area, total: u16) -> bool {
    fits_in_u16(area) && middle_top_row(area, total) >= 0
}

/// `centered_top` lies within `u16` and the block is no taller than the area.
pub open spec fn centered_top_in_range(area: Area, total: u16) -> bool {
    fits_in_u16(area) && total <= area.height
}

/// Whether the first row of a middle-placed block is defined.
pub fn middle_top_defined(area: Area, total: u16) -> (res: bool)
    ensures
        res == middle_top_in_range(area, total),
{
    area_fits(area) && area.y + area.height.saturating_sub(1) / 2 >= total / 2
}

/// Whether the first row of a centred block is defined.
pub fn centered_top_defined(area: Area, total: u16) -> (res: bool)
    ensures
        res == centered_top_in_range(area, total),
{
    area_fits(area) && total <= area.height
}

/// The first row of a block of `total` rows placed around the middle.
pub fn middle_top(area: Area, total: u16) -> (res: u16)
    requires
        middle_top_in_range(area, total),
    ensures
        res == middle_top_row(area, total),
{
    area.y + area.height.saturating_sub(1) / 2 - total / 2
}

/// The first row of a block of `total` rows centred in the area.
pub fn centered_top(area: Area, total: u16) -> (res: u16)
    requires
        centered_top_in_range(area, total),
    ensures
        res == centered_top_row(area, total),
{
    area.y + (area.height - total) / 2
}

/// Whether row `y` lies within the area.
pub fn row_in_area(area: Area, y: u16) -> (res: bool)
    requires
        fits_in_u16(area),
    ensures
        res == (area.y <= y < area.y + area.height),
{
    !(y < area.y || y >= area.y + area.height)
}

/// The first column of a line of `length` cells centred in the area.
pub fn centered_left(area: Area, length: usize) -> (res: u16)
    requires
        length <= area.width,
        fits_in_u16(area),
    ensures
        res == area.x + (area.width - length) / 2,
{
    area.x + ((area.width as usize - length) / 2) as u16
}

/// How a number of seconds is spelled: seconds below a minute, whole
/// minutes, or minutes and seconds.
#[derive(Debug, Clone, Copy, PartialEq, Eq, Structural)]
pub enum TimeLabel {
    Seconds(u32),
    Minutes(u32),
    MinutesSeconds(u32, u32),
}

/// The spelling of `seconds`.
pub open spec fn spelling_of(seconds: u32) -> TimeLabel {
    if seconds >= 60 {
        if seconds % 60 == 0 {
            TimeLabel::Minutes(seconds / 60)
        } else {
            TimeLabel::MinutesSeconds(seconds / 60, seconds % 60)
        }
    } else {
        TimeLabel::Seconds(seconds)
    }
}

/// The spelling of `seconds`.
pub fn time_label(seconds: u32) -> (res: TimeLabel)
    ensures
        res == spelling_of(seconds),
{
    if seconds >= 60 {
        let min = seconds / 60;
        let sec = seconds % 60;
        if sec == 0 {
            TimeLabel::Minutes(min)
        } else {
            TimeLabel::MinutesSeconds(min, sec)
        }
    } else {
        TimeLabel::Seconds(seconds)
    }
}

/// A spelled time names the same number of seconds.
pub proof fn lemma_time_label_total(seconds: u32)
    ensures
        match spelling_of(seconds) {
            TimeLabel::Seconds(s) => s == seconds && s < 60,
            TimeLabel::Minutes(m) => m * 60 == seconds && m >= 1,
            TimeLabel::MinutesSeconds(m, s) => m * 60 + s == seconds && m >= 1 && 0 < s < 60,
        },
{
}

} // verus!
