//! What the widgets of the terminal UI show: their texts, styles and places.
//! Drawing them is left to the caller.

use crate::text::{decimal, join, join_strings, usize_to_string, views};
use crate::utils::Color;
use vstd::prelude::*;
use vstd::string::*;

verus! {

/// A rectangle of the terminal.
#[derive(Clone, Copy, Debug, PartialEq, Eq, Structural)]
pub struct Rect {
    pub x: u16,
    pub y: u16,
    pub width: u16,
    pub height: u16,
}

impl Rect {
    /// A rectangle lies within the terminal's coordinates.
    pub open spec fn wf(self) -> bool {
        self.x + self.width <= u16::MAX && self.y + self.height <= u16::MAX
    }

    /// The empty rectangle at the origin.
    pub fn zero() -> (r: Rect)
        ensures
            r == (Rect { x: 0, y: 0, width: 0, height: 0 }),
    {
        Rect { x: 0, y: 0, width: 0, height: 0 }
    }
}

/// How a piece of text is drawn.
#[derive(Clone, Copy, Debug, PartialEq, Eq, Structural)]
pub struct Style {
    pub fg: Option<Color>,
    pub bg: Option<Color>,
    pub bold: bool,
    pub reversed: bool,
}

impl Style {
    /// The terminal's own style.
    pub open spec fn plain() -> Style {
        Style { fg: None, bg: None, bold: false, reversed: false }
    }

    /// The terminal's own style.
    pub fn default() -> (s: Style)
        ensures
            s == Style::plain(),
    {
        Style { fg: None, bg: None, bold: false, reversed: false }
    }

    /// The style with this foreground colour.
    pub fn fg(self, color: Color) -> (s: Style)
        ensures
            s == (Style { fg: Some(color), ..self }),
    {
        Style { fg: Some(color), bg: self.bg, bold: self.bold, reversed: self.reversed }
    }

    /// The style with this background colour.
    pub fn bg(self, color: Color) -> (s: Style)
        ensures
            s == (Style { bg: Some(color), ..self }),
    {
        Style { fg: self.fg, bg: Some(color), bold: self.bold, reversed: self.reversed }
    }

    /// The style in bold.
    pub fn bold(self) -> (s: Style)
        ensures
            s == (Style { bold: true, ..self }),
    {
        Style { fg: self.fg, bg: self.bg, bold: true, reversed: self.reversed }
    }
}

/// The bar at the bottom of the terminal UI.
pub struct StatusBar<'a> {
    pub running_pods: usize,
    pub total_pods: usize,
    pub buffer_lines: usize,
    pub memory_mb: usize,
    pub active_filters: &'a [String],
    pub clusters: &'a [String],
    pub paused: bool,
    pub auto_scroll: bool,
}

/// What a `StatusBar` is in contracts.
pub struct StatusBarView {
    pub running_pods: usize,
    pub total_pods: usize,
    pub buffer_lines: usize,
    pub memory_mb: usize,
    pub active_filters: Seq<Seq<char>>,
    pub clusters: Seq<Seq<char>>,
    pub paused: bool,
    pub auto_scroll: bool,
}

impl<'a> View for StatusBar<'a> {
    type V = StatusBarView;

    open spec fn view(&self) -> StatusBarView {
        StatusBarView {
            running_pods: self.running_pods,
            total_pods: self.total_pods,
            buffer_lines: self.buffer_lines,
            memory_mb: self.memory_mb,
            active_filters: views(self.active_filters@),
            clusters: views(self.clusters@),
            paused: self.paused,
            auto_scroll: self.auto_scroll,
        }
    }
}

/// The names joined by `sep`, or `none` where there is no name.
pub open spec fn listed(names: Seq<Seq<char>>, sep: Seq<char>) -> Seq<char> {
    if names.len() == 0 {
        "none"@
    } else {
        join(names, sep)
    }
}

impl StatusBarView {
    /// The text of the bar.
    pub open spec fn text(self) -> Seq<char> {
        "Pods: "@ + decimal(self.running_pods as nat) + "/"@ + decimal(self.total_pods as nat)
            + " | Buffer: "@ + decimal(self.buffer_lines as nat) + " lines | Memory: "@ + decimal(
            self.memory_mb as nat,
        ) + " MB | Filters: "@ + listed(self.active_filters, ", "@) + " | Clusters: "@ + listed(
            self.clusters,
            ","@,
        ) + (if self.paused {
            " | [PAUSED]"@
        } else {
            Seq::empty()
        }) + (if self.auto_scroll {
            " | [AUTO]"@
        } else {
            Seq::empty()
        }) + " | ? for help"@
    }
}

impl<'a> StatusBar<'a> {
    /// A status bar with these figures.
    pub fn new(
        running_pods: usize,
        total_pods: usize,
        buffer_lines: usize,
        memory_mb: usize,
        active_filters: &'a [String],
        clusters: &'a [String],
        paused: bool,
        auto_scroll: bool,
    ) -> (bar: Self)
        ensures
            bar@ == (StatusBarView {
                running_pods,
                total_pods,
                buffer_lines,
                memory_mb,
                active_filters: views(active_filters@),
                clusters: views(clusters@),
                paused,
                auto_scroll,
            }),
    {
        StatusBar {
            running_pods,
            total_pods,
            buffer_lines,
            memory_mb,
            active_filters,
            clusters,
            paused,
            auto_scroll,
        }
    }

    /// The text of the bar.
    pub fn text(&self) -> (r: String)
        ensures
            r@ == self@.text(),
    {
        let mut r = String::from_str("Pods: ");
        r.append(usize_to_string(self.running_pods).as_str());
        r.append("/");
        r.append(usize_to_string(self.total_pods).as_str());
        r.append(" | Buffer: ");
        r.append(usize_to_string(self.buffer_lines).as_str());
        r.append(" lines | Memory: ");
        r.append(usize_to_string(self.memory_mb).as_str());
        r.append(" MB | Filters: ");
        if self.active_filters.len() == 0 {
            r.append("none");
        } else {
            r.append(join_strings(self.active_filters, ", ").as_str());
        }
        r.append(" | Clusters: ");
        if self.clusters.len() == 0 {
            r.append("none");
        } else {
            r.append(join_strings(self.clusters, ",").as_str());
        }
        if self.paused {
            r.append(" | [PAUSED]");
        }
        if self.auto_scroll {
            r.append(" | [AUTO]");
        }
        r.append(" | ? for help");
        proof {
            assert(r@ =~= self@.text());
        }
        r
    }

    /// The style of the bar: white on dark gray.
    pub fn style(&self) -> (s: Style)
        ensures
            s == (Style { fg: Some(Color::White), bg: Some(Color::DarkGray), ..Style::plain() }),
    {
        Style::default().bg(Color::DarkGray).fg(Color::White)
    }
}

/// The overlay that lists the keys.
pub struct HelpOverlay;

/// The width of the help overlay.
pub const HELP_WIDTH: u16 = 60;

/// The height of the help overlay: its lines and the border.
pub const HELP_HEIGHT: u16 = 26;

/// The lines of the help overlay.
pub open spec fn help_lines() -> Seq<Seq<char>> {
    seq![
        "Keyboard Shortcuts"@,
        ""@,
        "  q/Q/Ctrl-C  - Quit"@,
        "  s           - Toggle sidebar"@,
        "  p           - Pause/Resume"@,
        "  c           - Clear log buffer"@,
        "  a           - Toggle auto-scroll"@,
        "  t           - Toggle timestamps"@,
        "  x           - Toggle pod/container prefix"@,
        "  ?           - Toggle this help"@,
        ""@,
        "Search & Filter:"@,
        "  /           - Search (highlights matches, use n/N to navigate)"@,
        "  n/N         - Jump to next/previous search match"@,
        "  f           - Filter (show only matching lines)"@,
        ""@,
        "Navigation:"@,
        "  ↑/↓         - Navigate sidebar (when open) or scroll logs"@,
        "  PgUp/PgDn   - Page scroll (logs)"@,
        "  Home/End    - Jump to top/bottom (logs)"@,
        "  g/G         - Jump to top/bottom (logs, vim-style)"@,
        "  Space       - Toggle pod/container or expand/collapse tree node"@,
        ""@,
        "Press any key to close"@,
    ]
}

/// A coordinate moved by `d`, as far as the terminal's coordinates reach.
pub open spec fn moved(at: u16, d: u16) -> u16 {
    if at + d <= u16::MAX {
        (at + d) as u16
    } else {
        u16::MAX
    }
}

/// Where the help overlay goes in `area`: in its middle, as large as the
/// overlay is and the area allows.
pub open spec fn help_area_of(area: Rect) -> Rect {
    Rect {
        x: moved(
            area.x,
            if area.width > HELP_WIDTH {
                ((area.width - HELP_WIDTH) / 2) as u16
            } else {
                0
            },
        ),
        y: moved(
            area.y,
            if area.height > HELP_HEIGHT {
                ((area.height - HELP_HEIGHT) / 2) as u16
            } else {
                0
            },
        ),
        width: if area.width < HELP_WIDTH {
            area.width
        } else {
            HELP_WIDTH
        },
        height: if area.height < HELP_HEIGHT {
            area.height
        } else {
            HELP_HEIGHT
        },
    }
}

impl HelpOverlay {
    /// The lines of the overlay.
    pub fn lines(&self) -> (r: Vec<&'static str>)
        ensures
            Seq::new(r@.len(), |i: int| r@[i]@) == help_lines(),
    {
        let mut r: Vec<&'static str> = Vec::new();
        r.push("Keyboard Shortcuts");
        r.push("");
        r.push("  q/Q/Ctrl-C  - Quit");
        r.push("  s           - Toggle sidebar");
        r.push("  p           - Pause/Resume");
        r.push("  c           - Clear log buffer");
        r.push("  a           - Toggle auto-scroll");
        r.push("  t           - Toggle timestamps");
        r.push("  x           - Toggle pod/container prefix");
        r.push("  ?           - Toggle this help");
        r.push("");
        r.push("Search & Filter:");
        r.push("  /           - Search (highlights matches, use n/N to navigate)");
        r.push("  n/N         - Jump to next/previous search match");
        r.push("  f           - Filter (show only matching lines)");
        r.push("");
        r.push("Navigation:");
        r.push("  ↑/↓         - Navigate sidebar (when open) or scroll logs");
        r.push("  PgUp/PgDn   - Page scroll (logs)");
        r.push("  Home/End    - Jump to top/bottom (logs)");
        r.push("  g/G         - Jump to top/bottom (logs, vim-style)");
        r.push("  Space       - Toggle pod/container or expand/collapse tree node");
        r.push("");
        r.push("Press any key to close");
        proof {
            assert(Seq::new(r@.len(), |i: int| r@[i]@) =~= help_lines());
        }
        r
    }

    /// Where the overlay goes in `area`. Within an area of the terminal the
    /// overlay lies within the area.
    pub fn area(&self, area: Rect) -> (r: Rect)
        ensures
            r == help_area_of(area),
            area.wf() ==> r.wf() && area.x <= r.x && r.x + r.width <= area.x + area.width
                && area.y <= r.y && r.y + r.height <= area.y + area.height,
    {
        let dx = if area.width > HELP_WIDTH {
            (area.width - HELP_WIDTH) / 2
        } else {
            0
        };
        let dy = if area.height > HELP_HEIGHT {
            (area.height - HELP_HEIGHT) / 2
        } else {
            0
        };
        Rect {
            x: if dx <= u16::MAX - area.x {
                area.x + dx
            } else {
                u16::MAX
            },
            y: if dy <= u16::MAX - area.y {
                area.y + dy
            } else {
                u16::MAX
            },
            width: if area.width < HELP_WIDTH {
                area.width
            } else {
                HELP_WIDTH
            },
            height: if area.height < HELP_HEIGHT {
                area.height
            } else {
                HELP_HEIGHT
            },
        }
    }

    /// The style of the overlay: white on black.
    pub fn style(&self) -> (s: Style)
        ensures
            s == (Style { fg: Some(Color::White), bg: Some(Color::Black), ..Style::plain() }),
    {
        Style::default().bg(Color::Black).fg(Color::White)
    }
}

} // verus!
