//! Where an inline viewport goes on the screen.
use vstd::prelude::*;

use crate::layout::{min_u16, sat_sub, Position, Rect, Size};

verus! {

/// The area of an inline viewport of `height` rows on a screen of `size`, with the cursor at
/// `cursor`, `offset` rows below the top of the previous viewport; the screen has been
/// scrolled so that the rows from the cursor down fit.
pub open spec fn inline_area(height: u16, size: Size, offset: u16, cursor: Position) -> Rect {
    let max_height = min_u16(size.height, height);
    let lines_after_cursor = inline_lines_after_cursor(height, offset);
    let available_lines = sat_sub(sat_sub(size.height, cursor.y), 1);
    let missing_lines = sat_sub(lines_after_cursor, available_lines);
    let row = if missing_lines > 0 {
        sat_sub(cursor.y, missing_lines)
    } else {
        cursor.y
    };
    Rect { x: 0, y: sat_sub(row, offset), width: size.width, height: max_height }
}

/// The number of line breaks written below the cursor to make room for an inline viewport
/// of `height` rows whose top is `offset` rows above the cursor.
pub open spec fn inline_lines_after_cursor(height: u16, offset: u16) -> u16 {
    sat_sub(sat_sub(height, offset), 1)
}

/// The area of an inline viewport of `height` rows on a screen of `size`, with the cursor at
/// `cursor` and `offset` rows below the top of the previous viewport.
pub fn inline_viewport_area(height: u16, size: Size, offset: u16, cursor: Position) -> (r: Rect)
    ensures
        r == inline_area(height, size, offset, cursor),
{
    let mut row = cursor.y;
    let max_height = if size.height < height {
        size.height
    } else {
        height
    };
    let lines_after_cursor = height.saturating_sub(offset).saturating_sub(1);
    let available_lines = size.height.saturating_sub(row).saturating_sub(1);
    let missing_lines = lines_after_cursor.saturating_sub(available_lines);
    if missing_lines > 0 {
        row = row.saturating_sub(missing_lines);
    }
    row = row.saturating_sub(offset);
    Rect { x: 0, y: row, width: size.width, height: max_height }
}

/// Law: with the cursor on the screen, an inline viewport lies within the screen: it is as
/// wide as the screen, at most as tall, and its bottom does not pass the bottom of the
/// screen.
pub proof fn law_inline_viewport_within_screen(
    height: u16,
    size: Size,
    offset: u16,
    cursor: Position,
)
    requires
        cursor.y < size.height,
    ensures
        inline_area(height, size, offset, cursor).width == size.width,
        inline_area(height, size, offset, cursor).height <= size.height,
        inline_area(height, size, offset, cursor).height <= height,
        inline_area(height, size, offset, cursor).y + inline_area(height, size, offset, cursor).height
            <= size.height,
{
}

/// Law: an inline viewport placed anew keeps the cursor the same number of rows below its
/// top as in the previous viewport (`offset`), as far as the screen allows. With the cursor on
/// the screen: where the rows from the cursor to the bottom of
/// the viewport fit below the cursor, the top is `offset` rows above the cursor (or the top of
/// the screen, if the cursor is nearer to it); where they do not, the screen scrolls and the
/// viewport ends at the bottom of the screen. The viewport is as tall as asked, but no taller
/// than the screen, and starts at the left edge.
pub proof fn law_inline_viewport_keeps_cursor_row(
    height: u16,
    size: Size,
    offset: u16,
    cursor: Position,
)
    requires
        cursor.y < size.height,
    ensures
        ({
            let area = inline_area(height, size, offset, cursor);
            let below = if offset < height {
                height - offset - 1
            } else {
                0
            };
            &&& area.x == 0
            &&& area.height == if height <= size.height {
                height
            } else {
                size.height
            }
            &&& cursor.y + below < size.height ==> area.y == if offset <= cursor.y {
                cursor.y - offset
            } else {
                0
            }
            &&& cursor.y + below >= size.height ==> area.y + area.height == size.height
        }),
{
}

} // verus!
