//! Where the reader is: a window on a screen, and the keys that move it.
use vstd::prelude::*;

use crate::render::inline::text_width;
use crate::render::{sat, spans_width, HeadingV, LineV, Screen, SpanV};

verus! {

/// What the pager is currently doing.
#[derive(Debug, Clone, Copy, PartialEq, Eq, Structural)]
pub enum Mode {
    Normal,
    /// Typing a search query. `backward` remembers which way to jump on accept.
    Searching { backward: bool },
    /// An overlay panel is open.
    Panel(Panel),
}

#[derive(Debug, Clone, Copy, PartialEq, Eq, Structural)]
pub enum Panel {
    Contents,
    Links,
    Help,
}

/// A key.
#[derive(Debug, Clone, Copy, PartialEq, Eq, Structural)]
pub enum Key {
    Char(char),
    Esc,
    Enter,
    Backspace,
    Up,
    Down,
    Left,
    Right,
    PageUp,
    PageDown,
    Home,
    End,
    /// A function key.
    F(u8),
    Other,
}

/// A key going down or up.
#[derive(Debug, Clone, Copy, PartialEq, Eq, Structural)]
pub struct KeyPress {
    pub code: Key,
    pub ctrl: bool,
    /// Terminals speaking the kitty keyboard protocol also report releases.
    pub release: bool,
}

/// What the mouse did.
#[derive(Debug, Clone, Copy, PartialEq, Eq, Structural)]
pub enum Click {
    ScrollDown,
    ScrollUp,
    /// The left button went down on a cell.
    Left { row: u16, column: u16 },
    Other,
}

/// Where the reader is and what they are doing there.
#[derive(Debug, Clone, Copy, PartialEq, Eq, Structural)]
pub struct Window {
    /// First visible document line.
    pub top: usize,
    /// Horizontal scroll offset in columns.
    pub left: usize,
    pub cols: u16,
    pub rows: u16,
    pub mode: Mode,
    /// Selected row in the open panel.
    pub selection: usize,
    /// Whether the mouse is reported to the pager.
    pub mouse: bool,
    /// Whether images are drawn.
    pub images: bool,
    /// Set when the frame on screen no longer matches the state.
    pub dirty: bool,
    pub quit: bool,
}

// --- the window -----------------------------------------------------------------------

/// Rows available for the document, leaving one for the status bar.
pub open spec fn viewport_of(w: Window) -> int {
    if w.rows > 2 {
        w.rows - 1
    } else {
        1
    }
}

/// The furthest the document may be scrolled: the last screenful, not the last line.
pub open spec fn max_top_of(w: Window, screen: Screen) -> int {
    if screen@.lines.len() > viewport_of(w) {
        screen@.lines.len() - viewport_of(w)
    } else {
        0
    }
}

/// The columns of the widest of the first `k` lines.
pub open spec fn widest_line(lines: Seq<LineV>, k: int) -> int
    decreases k,
{
    if k <= 0 {
        0
    } else {
        let before = widest_line(lines, k - 1);
        let w = sat(spans_width(lines[k - 1].spans));
        if w > before {
            w
        } else {
            before
        }
    }
}

/// The furthest the document may be scrolled sideways.
pub open spec fn max_left_of(w: Window, screen: Screen) -> int {
    let widest = widest_line(screen@.lines, screen@.lines.len() as int);
    if widest > w.cols {
        widest - w.cols
    } else {
        0
    }
}

pub open spec fn at_most(n: int, max: int) -> int {
    if n > max {
        max
    } else {
        n
    }
}

/// `n` moved by `d`, and no further than 0 and `max`.
pub open spec fn moved(n: int, d: int, max: int) -> int {
    if n + d < 0 {
        0
    } else {
        at_most(n + d, max)
    }
}

/// The number of rows in a panel.
pub open spec fn panel_rows(screen: Screen, panel: Panel) -> int {
    match panel {
        Panel::Contents => screen@.headings.len() as int,
        Panel::Links => screen@.links.len() as int,
        Panel::Help => 18,
    }
}

/// The last row of a panel.
pub open spec fn last_row(screen: Screen, panel: Panel) -> int {
    if panel_rows(screen, panel) > 0 {
        panel_rows(screen, panel) - 1
    } else {
        0
    }
}

/// A window whose place and selection are where something is.
pub open spec fn clamped(w: Window, screen: Screen) -> Window {
    Window {
        top: at_most(w.top as int, max_top_of(w, screen)) as usize,
        left: at_most(w.left as int, max_left_of(w, screen)) as usize,
        selection: match w.mode {
            Mode::Panel(panel) => at_most(w.selection as int, last_row(screen, panel)) as usize,
            _ => w.selection,
        },
        ..w
    }
}

pub open spec fn scrolled(w: Window, screen: Screen, d: int) -> Window {
    Window { top: moved(w.top as int, d, max_top_of(w, screen)) as usize, ..w }
}

/// `line` near the top, with a little context above it.
pub open spec fn scrolled_to(w: Window, screen: Screen, line: int) -> Window {
    let context = at_most(viewport_of(w) / 5, 4);
    Window {
        top: at_most(
            if line > context {
                line - context
            } else {
                0
            },
            max_top_of(w, screen),
        ) as usize,
        ..w
    }
}

/// Scrolled only as far as needed to make `line` visible.
pub open spec fn into_view(w: Window, screen: Screen, line: int) -> Window {
    let h = viewport_of(w);
    if line < w.top {
        Window { top: line as usize, ..w }
    } else if line >= w.top + h {
        Window { top: at_most(line + 1 - h, max_top_of(w, screen)) as usize, ..w }
    } else {
        w
    }
}

/// The rows that a page is turned by: almost a screenful, so that the reader keeps
/// their place.
pub open spec fn page_of(w: Window) -> int {
    if viewport_of(w) > 3 {
        viewport_of(w) - 2
    } else {
        1
    }
}

/// Half a screenful.
pub open spec fn half_of(w: Window) -> int {
    if viewport_of(w) / 2 > 1 {
        viewport_of(w) / 2
    } else {
        1
    }
}

/// The keys that only move the reader, or end the reading.
pub open spec fn moving_key(w: Window, screen: Screen, key: Key, ctrl: bool) -> Option<Window> {
    match key {
        Key::Esc => Some(Window { quit: true, ..w }),
        Key::Char('q') => Some(Window { quit: true, ..w }),
        Key::Char('c') if ctrl => Some(Window { quit: true, ..w }),
        Key::Char('d') => Some(scrolled(w, screen, half_of(w))),
        Key::Char('u') => Some(scrolled(w, screen, -half_of(w))),
        Key::Char('f') if ctrl => Some(scrolled(w, screen, page_of(w))),
        Key::Char('j') | Key::Down | Key::Enter => Some(scrolled(w, screen, 1)),
        Key::Char('k') | Key::Up => Some(scrolled(w, screen, -1)),
        Key::Char(' ') | Key::PageDown => Some(scrolled(w, screen, page_of(w))),
        Key::Char('b') | Key::PageUp => Some(scrolled(w, screen, -page_of(w))),
        Key::Char('g') | Key::Home => Some(Window { top: 0, ..w }),
        Key::Char('G') | Key::End => Some(Window { top: max_top_of(w, screen) as usize, ..w }),
        Key::Char('h') | Key::Left => Some(
            Window {
                left: if w.left > 4 {
                    (w.left - 4) as usize
                } else {
                    0
                },
                ..w
            },
        ),
        Key::Char('l') | Key::Right => Some(
            Window { left: at_most(w.left + 4, max_left_of(w, screen)) as usize, ..w },
        ),
        Key::Char('0') => Some(Window { left: 0, ..w }),
        _ => None,
    }
}

/// The last of the first `k` headings that is not below a line, or the first of all.
pub open spec fn heading_above(headings: Seq<HeadingV>, line: int, k: int) -> int
    decreases k,
{
    if k <= 0 {
        0
    } else if headings[k - 1].line <= line {
        k - 1
    } else {
        heading_above(headings, line, k - 1)
    }
}

/// A panel that opens; the contents on whichever heading the reader is nearest.
pub open spec fn panel_opened(w: Window, screen: Screen, panel: Panel) -> Window {
    Window {
        selection: match panel {
            Panel::Contents => heading_above(
                screen@.headings,
                w.top as int,
                screen@.headings.len() as int,
            ) as usize,
            _ => 0,
        },
        mode: Mode::Panel(panel),
        ..w
    }
}

/// The keys that close a panel or move in it.
pub open spec fn panel_move(w: Window, screen: Screen, key: Key, panel: Panel) -> Option<Window> {
    match key {
        Key::Esc => Some(Window { mode: Mode::Normal, ..w }),
        Key::Char('q') => Some(Window { mode: Mode::Normal, ..w }),
        Key::Char('t') if panel == Panel::Contents => Some(Window { mode: Mode::Normal, ..w }),
        Key::Char('j') | Key::Down => Some(
            Window { selection: at_most(w.selection + 1, last_row(screen, panel)) as usize, ..w },
        ),
        Key::Char('k') | Key::Up => Some(
            Window {
                selection: if w.selection > 0 {
                    (w.selection - 1) as usize
                } else {
                    0
                },
                ..w
            },
        ),
        Key::Char('g') | Key::Home => Some(Window { selection: 0, ..w }),
        Key::Char('G') | Key::End => Some(
            Window { selection: last_row(screen, panel) as usize, ..w },
        ),
        _ => None,
    }
}

impl Window {
    /// Rows available for the document, leaving one for the status bar.
    pub fn viewport(&self) -> (r: usize)
        ensures
            r == viewport_of(*self),
            1 <= r <= 65535,
    {
        if self.rows > 2 {
            self.rows as usize - 1
        } else {
            1
        }
    }

    /// The furthest the document may be scrolled: the last screenful, not the last line.
    pub fn max_top(&self, screen: &Screen) -> (r: usize)
        ensures
            r == max_top_of(*self, *screen),
    {
        screen.len().saturating_sub(self.viewport())
    }

    /// The furthest the document may be scrolled sideways.
    pub fn max_left(&self, screen: &Screen) -> (r: usize)
        ensures
            r == max_left_of(*self, *screen),
    {
        let ghost v = screen@.lines;
        let mut most: usize = 0;
        for i in 0..screen.lines.len()
            invariant
                v == screen@.lines,
                v.len() == screen.lines.len(),
                most == widest_line(v, i as int),
        {
            assert(v[i as int] == screen.lines@[i as int]@);
            let w = screen.lines[i].width();
            if w > most {
                most = w;
            }
        }
        most.saturating_sub(self.cols as usize)
    }

    pub(crate) fn last_row(&self, screen: &Screen, panel: Panel) -> (r: usize)
        ensures
            r == last_row(*screen, panel),
    {
        let n: usize = match panel {
            Panel::Contents => screen.headings.len(),
            Panel::Links => screen.links.len(),
            Panel::Help => 18,
        };
        n.saturating_sub(1)
    }

    pub(crate) fn clamp(self, screen: &Screen) -> (r: Window)
        ensures
            r == clamped(self, *screen),
    {
        let mut w = self;
        let top = self.max_top(screen);
        if w.top > top {
            w.top = top;
        }
        let left = self.max_left(screen);
        if w.left > left {
            w.left = left;
        }
        match self.mode {
            Mode::Panel(panel) => {
                let last = self.last_row(screen, panel);
                if w.selection > last {
                    w.selection = last;
                }
            },
            _ => {},
        }
        w
    }

    pub(crate) fn at_top(self, line: usize) -> (r: Window)
        ensures
            r == (Window { top: line, ..self }),
    {
        let mut w = self;
        w.top = line;
        w
    }

    pub(crate) fn at_left(self, column: usize) -> (r: Window)
        ensures
            r == (Window { left: column, ..self }),
    {
        let mut w = self;
        w.left = column;
        w
    }

    pub(crate) fn at_row(self, row: usize) -> (r: Window)
        ensures
            r == (Window { selection: row, ..self }),
    {
        let mut w = self;
        w.selection = row;
        w
    }

    pub(crate) fn in_mode(self, mode: Mode) -> (r: Window)
        ensures
            r == (Window { mode, ..self }),
    {
        let mut w = self;
        w.mode = mode;
        w
    }

    pub(crate) fn ended(self) -> (r: Window)
        ensures
            r == (Window { quit: true, ..self }),
    {
        let mut w = self;
        w.quit = true;
        w
    }

    pub(crate) fn scroll_down(self, screen: &Screen, n: usize) -> (r: Window)
        ensures
            r == scrolled(self, *screen, n as int),
    {
        let max = self.max_top(screen);
        let next = self.top.saturating_add(n);
        self.at_top(
            if next > max {
                max
            } else {
                next
            },
        )
    }

    pub(crate) fn scroll_up(self, screen: &Screen, n: usize) -> (r: Window)
        ensures
            r == scrolled(self, *screen, -(n as int)),
    {
        let max = self.max_top(screen);
        let next = self.top.saturating_sub(n);
        self.at_top(
            if next > max {
                max
            } else {
                next
            },
        )
    }

    /// Puts `line` near the top, leaving a little context above it.
    pub(crate) fn scroll_to(self, screen: &Screen, line: usize) -> (r: Window)
        ensures
            r == scrolled_to(self, *screen, line as int),
    {
        let fifth: usize = self.viewport() / 5;
        let context: usize = if fifth > 4 {
            4
        } else {
            fifth
        };
        let max = self.max_top(screen);
        let next = line.saturating_sub(context);
        self.at_top(
            if next > max {
                max
            } else {
                next
            },
        )
    }

    /// Scrolls only as far as needed to make `line` visible.
    pub(crate) fn scroll_into_view(self, screen: &Screen, line: usize) -> (r: Window)
        ensures
            r == into_view(self, *screen, line as int),
    {
        let height = self.viewport();
        if line < self.top {
            self.at_top(line)
        } else if line - self.top >= height {
            let max = self.max_top(screen);
            let next: usize = line - height;
            self.at_top(
                if next >= max {
                    max
                } else {
                    next + 1
                },
            )
        } else {
            self
        }
    }

    pub(crate) fn moving_letter(self, screen: &Screen, c: char, ctrl: bool) -> (r: Option<Window>)
        ensures
            r == moving_key(self, *screen, Key::Char(c), ctrl),
    {
        let tall = self.viewport();
        let page: usize = if tall > 3 {
            tall - 2
        } else {
            1
        };
        let half: usize = if tall / 2 > 1 {
            tall / 2
        } else {
            1
        };
        match c {
            'q' => Some(self.ended()),
            'c' => if ctrl {
                Some(self.ended())
            } else {
                None
            },
            'd' => Some(self.scroll_down(screen, half)),
            'u' => Some(self.scroll_up(screen, half)),
            'f' => if ctrl {
                Some(self.scroll_down(screen, page))
            } else {
                None
            },
            'j' => Some(self.scroll_down(screen, 1)),
            'k' => Some(self.scroll_up(screen, 1)),
            ' ' => Some(self.scroll_down(screen, page)),
            'b' => Some(self.scroll_up(screen, page)),
            'g' => Some(self.at_top(0)),
            'G' => Some(self.at_top(self.max_top(screen))),
            'h' => Some(self.at_left(self.left.saturating_sub(4))),
            'l' => Some(self.scroll_right(screen)),
            '0' => Some(self.at_left(0)),
            _ => None,
        }
    }

    pub(crate) fn scroll_right(self, screen: &Screen) -> (r: Window)
        ensures
            r == (Window {
                left: at_most(self.left + 4, max_left_of(self, *screen)) as usize,
                ..self
            }),
    {
        let max = self.max_left(screen);
        let next = self.left.saturating_add(4);
        self.at_left(
            if next > max {
                max
            } else {
                next
            },
        )
    }

    /// What a key does that only moves the reader, or ends the reading.
    pub(crate) fn moving_key(self, screen: &Screen, key: Key, ctrl: bool) -> (r: Option<Window>)
        ensures
            r == moving_key(self, *screen, key, ctrl),
    {
        let tall = self.viewport();
        let page: usize = if tall > 3 {
            tall - 2
        } else {
            1
        };
        match key {
            Key::Char(c) => self.moving_letter(screen, c, ctrl),
            Key::Esc => Some(self.ended()),
            Key::Down => Some(self.scroll_down(screen, 1)),
            Key::Enter => Some(self.scroll_down(screen, 1)),
            Key::Up => Some(self.scroll_up(screen, 1)),
            Key::PageDown => Some(self.scroll_down(screen, page)),
            Key::PageUp => Some(self.scroll_up(screen, page)),
            Key::Home => Some(self.at_top(0)),
            Key::End => Some(self.at_top(self.max_top(screen))),
            Key::Left => Some(self.at_left(self.left.saturating_sub(4))),
            Key::Right => Some(self.scroll_right(screen)),
            _ => None,
        }
    }

    pub(crate) fn open_panel(self, screen: &Screen, panel: Panel) -> (r: Window)
        ensures
            r == panel_opened(self, *screen, panel),
    {
        let row: usize = match panel {
            Panel::Contents => self.heading_here(screen),
            _ => 0,
        };
        self.at_row(row).in_mode(Mode::Panel(panel))
    }

    pub(crate) fn heading_here(&self, screen: &Screen) -> (r: usize)
        ensures
            r == heading_above(screen@.headings, self.top as int, screen@.headings.len() as int),
    {
        let ghost v = screen@.headings;
        let mut k: usize = screen.headings.len();
        while k > 0 && screen.headings[k - 1].line > self.top
            invariant
                k <= screen.headings.len(),
                v == screen@.headings,
                heading_above(v, self.top as int, k as int) == heading_above(
                    v,
                    self.top as int,
                    v.len() as int,
                ),
            decreases k,
        {
            assert(v[k - 1] == screen.headings@[k - 1]@);
            k = k - 1;
        }
        if k > 0 {
            assert(v[k - 1] == screen.headings@[k - 1]@);
            k - 1
        } else {
            0
        }
    }

    pub(crate) fn panel_move(self, screen: &Screen, key: Key, panel: Panel) -> (r: Option<Window>)
        ensures
            r == panel_move(self, *screen, key, panel),
    {
        let last = self.last_row(screen, panel);
        let down: usize = if self.selection < last {
            self.selection + 1
        } else {
            last
        };
        let up: usize = self.selection.saturating_sub(1);
        match key {
            Key::Esc => Some(self.in_mode(Mode::Normal)),
            Key::Down => Some(self.at_row(down)),
            Key::Up => Some(self.at_row(up)),
            Key::Home => Some(self.at_row(0)),
            Key::End => Some(self.at_row(last)),
            Key::Char(c) => match c {
                'q' => Some(self.in_mode(Mode::Normal)),
                't' => if panel == Panel::Contents {
                    Some(self.in_mode(Mode::Normal))
                } else {
                    None
                },
                'j' => Some(self.at_row(down)),
                'k' => Some(self.at_row(up)),
                'g' => Some(self.at_row(0)),
                'G' => Some(self.at_row(last)),
                _ => None,
            },
            _ => None,
        }
    }
}

/// The code block of the first line from `k` to `end` that belongs to one.
pub open spec fn code_from(lines: Seq<LineV>, k: int, end: int) -> Option<usize>
    decreases end - k,
{
    if k < 0 || k >= end || k >= lines.len() {
        None
    } else if lines[k].code is Some {
        lines[k].code
    } else {
        code_from(lines, k + 1, end)
    }
}

/// The source of the first code block showing in the window.
pub open spec fn code_on_screen(w: Window, screen: Screen) -> Option<Seq<char>> {
    match code_from(screen@.lines, w.top as int, w.top + viewport_of(w)) {
        Some(i) if i < screen@.code_blocks.len() => Some(screen@.code_blocks[i as int]),
        _ => None,
    }
}

/// The link of the span over column `target`, from span `k` on, which starts at `at`.
pub open spec fn link_over(spans: Seq<SpanV>, k: int, at: int, target: int) -> Option<usize>
    decreases spans.len() - k,
{
    if k < 0 || k >= spans.len() {
        None
    } else {
        let end = sat(at + text_width(spans[k].text));
        if target < end {
            spans[k].link
        } else {
            link_over(spans, k + 1, end, target)
        }
    }
}

/// The link under a screen cell, if any. The last row is the status bar.
pub open spec fn link_under(w: Window, screen: Screen, row: int, column: int) -> Option<usize> {
    if row >= viewport_of(w) || w.top + row >= screen@.lines.len() {
        None
    } else {
        link_over(screen@.lines[w.top + row].spans, 0, 0, sat(w.left + column))
    }
}

// --- laws ------------------------------------------------------------------------------

/// Going to a line of the document brings it into the window, and the window stays in
/// the document.
pub proof fn the_line_is_shown(w: Window, screen: Screen, line: int)
    requires
        0 <= line < screen@.lines.len(),
        screen@.lines.len() <= usize::MAX,
    ensures
        scrolled_to(w, screen, line).top <= line < scrolled_to(w, screen, line).top + viewport_of(
            w,
        ),
        scrolled_to(w, screen, line).top <= max_top_of(w, screen),
{
}

/// A search that is followed while it is typed shows its match, and moves the window no
/// further than it has to.
pub proof fn the_match_is_shown(w: Window, screen: Screen, line: int)
    requires
        0 <= line < screen@.lines.len(),
        screen@.lines.len() <= usize::MAX,
    ensures
        into_view(w, screen, line).top <= line < into_view(w, screen, line).top + viewport_of(w),
        w.top <= line < w.top + viewport_of(w) ==> into_view(w, screen, line) == w,
{
}

/// Scrolling never leaves the document, in either direction.
pub proof fn scrolling_stays_in_the_document(w: Window, screen: Screen, d: int)
    requires
        screen@.lines.len() <= usize::MAX,
    ensures
        0 <= scrolled(w, screen, d).top <= max_top_of(w, screen),
{
}

/// A document that fits in the window does not scroll.
pub proof fn short_documents_do_not_scroll(w: Window, screen: Screen, d: int)
    requires
        screen@.lines.len() <= viewport_of(w),
    ensures
        max_top_of(w, screen) == 0,
        scrolled(w, screen, d).top == 0,
{
}

/// The link of each character of a run of spans.
pub open spec fn char_links(spans: Seq<SpanV>, k: int) -> Seq<Option<usize>>
    decreases spans.len() - k,
{
    if k < 0 || k >= spans.len() {
        Seq::empty()
    } else {
        Seq::new(spans[k].text.len(), |i: int| spans[k].link) + char_links(spans, k + 1)
    }
}

/// A click follows the link of the character it falls on, where characters take one
/// column each, and none behind the end of the line.
pub proof fn clicks_follow_the_character(spans: Seq<SpanV>, k: int, at: int, target: int)
    requires
        0 <= k <= spans.len(),
        0 <= at <= target < usize::MAX,
        forall|i: int|
            0 <= i < spans.len() ==> text_width((#[trigger] spans[i]).text) == spans[i].text.len(),
        at + char_links(spans, k).len() <= usize::MAX,
    ensures
        link_over(spans, k, at, target) == (if target - at < char_links(spans, k).len() {
            char_links(spans, k)[target - at]
        } else {
            None
        }),
    decreases spans.len() - k,
{
    if k < spans.len() {
        let n = spans[k].text.len();
        let own = Seq::new(n, |i: int| spans[k].link);
        let all = char_links(spans, k);
        let rest = char_links(spans, k + 1);
        assert(text_width(spans[k].text) == n);
        assert(all == own + rest);
        assert(all.len() == n + rest.len());
        if target >= at + n {
            clicks_follow_the_character(spans, k + 1, at + n, target);
            assert(target - at < all.len() ==> all[target - at] == rest[target - at - n]);
        } else {
            assert(all[target - at] == own[target - at]);
        }
    }
}

} // verus!
