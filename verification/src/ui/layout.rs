//! Where the parts of the terminal UI go.

use crate::ui::widgets::Rect;
use vstd::prelude::*;

verus! {

/// How much room a part asks for.
#[derive(Clone, Copy, Debug, PartialEq, Eq, Structural)]
pub enum Constraint {
    /// At least this many cells.
    Min(u16),
    /// Exactly this many cells.
    Length(u16),
}

/// The areas of the terminal UI.
#[derive(Clone, Copy, Debug, PartialEq, Eq, Structural)]
pub struct AppLayout {
    pub sidebar: Rect,
    pub main: Rect,
    pub status_bar: Rect,
}

/// The width of the sidebar.
pub const SIDEBAR_WIDTH: u16 = 60;

/// Whether `part` spans `area` across the direction of a split: a part of a
/// vertical split has the area's columns, a part of a horizontal one its rows.
pub open spec fn spans(part: Rect, area: Rect, vertical: bool) -> bool {
    if vertical {
        part.x == area.x && part.width == area.width
    } else {
        part.y == area.y && part.height == area.height
    }
}

/// `Layout::split` with two constraints and no margin, one above the other if
/// `vertical` and side by side if not. Where the parts begin and end along
/// the direction of the split is the constraint solver's answer and is taken
/// as it comes. Across that direction the layout gives every part the
/// extent of the area.
#[verifier::external_body]
fn split(area: Rect, vertical: bool, first: Constraint, second: Constraint) -> (r: (Rect, Rect))
    ensures
        spans(r.0, area, vertical),
        spans(r.1, area, vertical),
{
    let to = |c| match c {
        Constraint::Min(n) => ratatui::layout::Constraint::Min(n),
        Constraint::Length(n) => ratatui::layout::Constraint::Length(n),
    };
    let from = |r: ratatui::layout::Rect| Rect { x: r.x, y: r.y, width: r.width, height: r.height };
    let direction = if vertical { ratatui::layout::Direction::Vertical } else { ratatui::layout::Direction::Horizontal };
    let rect = ratatui::layout::Rect { x: area.x, y: area.y, width: area.width, height: area.height };
    let parts = ratatui::layout::Layout::default().direction(direction).constraints([to(first), to(second)]).split(rect);
    (from(parts[0]), from(parts[1]))
}

/// The layout that two splits give: the status bar is the second of the rows,
/// and with a sidebar the first row is split again into the sidebar and the
/// main area.
pub open spec fn layout_of(rows: (Rect, Rect), columns: Option<(Rect, Rect)>) -> AppLayout {
    match columns {
        Some(c) => AppLayout { sidebar: c.0, main: c.1, status_bar: rows.1 },
        None => AppLayout {
            sidebar: Rect { x: 0, y: 0, width: 0, height: 0 },
            main: rows.0,
            status_bar: rows.1,
        },
    }
}

/// Puts a layout together from the areas that the splits gave.
pub fn arrange(rows: (Rect, Rect), columns: Option<(Rect, Rect)>) -> (r: AppLayout)
    ensures
        r == layout_of(rows, columns),
{
    match columns {
        Some(c) => AppLayout { sidebar: c.0, main: c.1, status_bar: rows.1 },
        None => AppLayout { sidebar: Rect::zero(), main: rows.0, status_bar: rows.1 },
    }
}

/// The areas of the terminal UI in `area`: a status bar of one row at the
/// bottom, and above it the main area, with a sidebar of `SIDEBAR_WIDTH` columns
/// to its left if the sidebar is visible.
///
/// The terminal library divides the area; whatever it gives, the layout is
/// put together from it as `layout_of` says. The status bar has the columns of
/// the area. Without a sidebar the sidebar's area is empty and the main area
/// has the columns of the area; with one, the sidebar and the main area have
/// the same rows. How many rows and columns each part gets is the terminal
/// library's answer.
pub fn create_layout(area: Rect, sidebar_visible: bool) -> (r: AppLayout)
    ensures
        sidebar_visible ==> exists|rows: (Rect, Rect), columns: (Rect, Rect)|
            r == #[trigger] layout_of(rows, Some(columns)),
        !sidebar_visible ==> exists|rows: (Rect, Rect)| r == #[trigger] layout_of(rows, None),
        spans(r.status_bar, area, true),
        !sidebar_visible ==> spans(r.main, area, true),
        sidebar_visible ==> spans(r.sidebar, r.main, false),
{
    let rows = split(area, true, Constraint::Min(1), Constraint::Length(1));
    let columns = if sidebar_visible {
        Some(split(rows.0, false, Constraint::Length(SIDEBAR_WIDTH), Constraint::Min(1)))
    } else {
        None
    };
    proof {
        match columns {
            Some(c) => {
                assert(layout_of(rows, columns) == layout_of(rows, Some(c)));
            },
            None => {
                assert(layout_of(rows, columns) == layout_of(rows, None));
            },
        }
    }
    arrange(rows, columns)
}

} // verus!
