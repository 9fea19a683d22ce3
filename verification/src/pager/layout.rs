//! Laying the document out for the window, again and again.
use vstd::prelude::*;

use super::search::{found, Search, SearchV};
use super::window::{at_most, clamped, max_top_of, Window};
use super::{built_from, in_window, saying, went_back, ActionV, Pager, PagerV, Visit};
use crate::binary64;
use crate::cli::Settings;
use crate::markdown::ir::{opt_text, Document};
use crate::render::code::Highlighter;
use crate::render::document::{document_drawn, env_for};
use crate::render::{render, ImageProvider, NoImages, Pictures, RenderOptions, Screen};
use crate::source::{build_document, Source};
use crate::term::caps::{Capabilities, GraphicsProtocol};
use crate::text;

verus! {

// --- laying out again ----------------------------------------------------------------------

/// The width of a page in a window: what was asked for, or a comfortable one, and no
/// more than the window has. Starting from what was asked for gives the width back when
/// the window is widened, rather than keeping what the narrowest size left behind.
pub open spec fn page_width(requested: Option<usize>, cols: u16) -> int {
    let target = match requested {
        Some(n) => n as int,
        None => at_most(cols as int, 100),
    };
    if at_most(target, cols as int) < 8 {
        8
    } else {
        at_most(target, cols as int)
    }
}

/// How a page is rendered in a window.
pub open spec fn page_options(s: Settings, w: Window) -> RenderOptions {
    let width = page_width(s.requested_width, w.cols);
    RenderOptions {
        width: width as usize,
        margin: at_most(s.render.margin as int, width / 4) as usize,
        images: w.images,
        ..s.render
    }
}

/// What the terminal can do, in a window of this size.
pub open spec fn page_caps(s: Settings, w: Window) -> Capabilities {
    Capabilities {
        cols: w.cols,
        rows: w.rows,
        graphics: if w.images {
            s.protocol
        } else {
            GraphicsProtocol::Off
        },
        ..s.caps
    }
}

/// What is known of the images that are drawn.
pub open spec fn shown_pictures(on: bool, pics: Pictures) -> Pictures {
    if on {
        pics
    } else {
        NoImages.pictures()
    }
}

/// The settings of a page, and nothing else changed.
pub open spec fn settings_for(after: Settings, before: Settings, w: Window) -> bool {
    &&& after.render == page_options(before, w)
    &&& after.caps == page_caps(before, w)
    &&& after.theme == before.theme
    &&& after.parse == before.parse
    &&& after.protocol == before.protocol
    &&& after.requested_width == before.requested_width
    &&& after.syntax_theme == before.syntax_theme
    &&& after.use_pager == before.use_pager
    &&& after.mouse == before.mouse
    &&& after.styled == before.styled
    &&& after.watch == before.watch
    &&& after.remote_images == before.remote_images
    &&& after.pager_forced == before.pager_forced
}

/// A document laid out for a window.
pub open spec fn laid_out(
    screen: Screen,
    doc: Document,
    s: Settings,
    w: Window,
    highlighter: Highlighter,
    pics: Pictures,
) -> bool {
    screen@ == document_drawn(
        env_for(doc@, page_options(s, w), s.theme, page_caps(s, w), highlighter),
        shown_pictures(w.images, pics),
        doc@,
    )
}

/// The same search on another screen.
pub open spec fn searched_again(search: Option<SearchV>, screen: Screen) -> Option<SearchV> {
    match search {
        Some(s) => Some(
            SearchV { query: s.query, matches: found(s.query, screen@), current: 0 },
        ),
        None => None,
    }
}

/// A pager that has been laid out again: the same document in a window that is where
/// something is.
#[verifier::opaque]
pub open spec fn rebuilt(before: Pager, after: Pager, highlighter: Highlighter, pics: Pictures) -> bool {
    &&& laid_out(
        after.screen,
        before.book.document,
        before.book.settings,
        before.window,
        highlighter,
        pics,
    )
    &&& after@ == (PagerV {
        screen: after.screen,
        window: clamped(before.window, after.screen),
        search: searched_again(before@.search, after.screen),
        ..before@
    })
    &&& settings_for(after.book.settings, before.book.settings, before.window)
    &&& after.book.document == before.book.document
    &&& after.book.sources == before.book.sources
    &&& after.book.history == before.book.history
}

/// A pager that has been laid out again, at a given line.
pub open spec fn restored(
    before: Pager,
    after: Pager,
    top: usize,
    highlighter: Highlighter,
    pics: Pictures,
) -> bool {
    exists|mid: Pager| #[trigger]
        rebuilt(before, mid, highlighter, pics) && after@ == in_window(
            mid@,
            clamped(Window { top, ..mid@.window }, mid@.screen),
        ) && after.book == mid.book
}

/// The line that is as far through a document of `now` lines as `top` is through one of
/// `was`, in the arithmetic of binary floating point.
pub open spec fn proportional(top: usize, was: int, now: int) -> usize {
    if was == 0 || top == 0 || now == 0 {
        0
    } else {
        binary64::floored(
            binary64::product(
                binary64::of_int(now),
                binary64::quotient(binary64::of_int(top as int), binary64::of_int(was)),
            ),
            usize::MAX as int,
        ) as usize
    }
}

/// A pager that has been laid out again, with the reader as far through the document as
/// before.
#[verifier::opaque]
pub open spec fn relaid(before: Pager, after: Pager, highlighter: Highlighter, pics: Pictures) -> bool {
    exists|mid: Pager| #[trigger]
        rebuilt(before, mid, highlighter, pics) && after.book == mid.book && after@ == in_window(
            mid@,
            clamped(
                Window {
                    top: proportional(
                        before.window.top,
                        before.screen@.lines.len() as int,
                        mid.screen@.lines.len() as int,
                    ),
                    ..mid@.window
                },
                mid@.screen,
            ),
        )
}

fn keep_place(top: usize, was: usize, now: usize) -> (r: usize)
    ensures
        r == proportional(top, was as int, now as int),
{
    if was == 0 || top == 0 || now == 0 {
        return 0;
    }
    let through = binary64::div(binary64::from_int(top as u64), binary64::from_int(was as u64));
    let line = binary64::times(binary64::from_int(now as u64), through);
    binary64::floor(line, usize::MAX as u64) as usize
}

fn fit_settings(settings: &mut Settings, w: Window)
    ensures
        settings_for(*final(settings), *old(settings), w),
{
    let cols: usize = w.cols as usize;
    let target: usize = match settings.requested_width {
        Some(n) => n,
        None => if cols > 100 {
            100
        } else {
            cols
        },
    };
    let target: usize = if target > cols {
        cols
    } else {
        target
    };
    let width: usize = if target < 8 {
        8
    } else {
        target
    };
    let mut options = settings.render;
    options.width = width;
    options.images = w.images;
    if options.margin > width / 4 {
        options.margin = width / 4;
    }
    settings.render = options;
    let mut caps = settings.caps;
    caps.cols = w.cols;
    caps.rows = w.rows;
    caps.graphics = if w.images {
        settings.protocol
    } else {
        GraphicsProtocol::Off
    };
    settings.caps = caps;
}

/// A document, laid out with the settings as they are.
pub open spec fn drawn_with(
    screen: Screen,
    doc: Document,
    s: Settings,
    on: bool,
    highlighter: Highlighter,
    pics: Pictures,
) -> bool {
    screen@ == document_drawn(
        env_for(doc@, s.render, s.theme, s.caps, highlighter),
        shown_pictures(on, pics),
        doc@,
    )
}

/// Lays a document out with settings, with its images or without them.
pub fn draw_page<P: ImageProvider>(
    document: &Document,
    settings: &Settings,
    on: bool,
    highlighter: &Highlighter,
    images: &mut P,
) -> (r: Screen)
    ensures
        drawn_with(r, *document, *settings, on, *highlighter, old(images).pictures()),
        final(images).pictures() == old(images).pictures(),
{
    if on {
        render(
            document,
            &settings.render,
            &settings.theme,
            &settings.caps,
            images,
            highlighter,
        )
    } else {
        let mut none = NoImages;
        render(
            document,
            &settings.render,
            &settings.theme,
            &settings.caps,
            &mut none,
            highlighter,
        )
    }
}

impl Pager {
    fn replace_screen(&mut self, screen: Screen)
        ensures
            final(self)@ == (PagerV {
                screen,
                window: clamped(old(self)@.window, screen),
                search: searched_again(old(self)@.search, screen),
                ..old(self)@
            }),
            final(self).book == old(self).book,
            final(self).wf(),
    {
        let again = match &self.search {
            Some(s) => Some(Search::new(&s.query, &screen)),
            None => None,
        };
        self.search = again;
        self.window = self.window.clamp(&screen);
        self.screen = screen;
    }

    /// Lays the document out for the window, without moving the reader further than the
    /// document ends.
    pub fn rebuild<P: ImageProvider>(&mut self, highlighter: &Highlighter, images: &mut P)
        ensures
            rebuilt(*old(self), *final(self), *highlighter, old(images).pictures()),
            final(self).wf(),
            final(images).pictures() == old(images).pictures(),
    {
        reveal(rebuilt);
        fit_settings(&mut self.book.settings, self.window);
        let screen = draw_page(
            &self.book.document,
            &self.book.settings,
            self.window.images,
            highlighter,
            images,
        );
        self.replace_screen(screen);
    }

    /// Lays the document out again, keeping the reader in roughly the same place: the
    /// line that was at the top may not exist any more.
    pub fn relayout<P: ImageProvider>(&mut self, highlighter: &Highlighter, images: &mut P)
        ensures
            relaid(*old(self), *final(self), *highlighter, old(images).pictures()),
            final(self).wf(),
            final(images).pictures() == old(images).pictures(),
    {
        reveal(relaid);
        let top = self.window.top;
        let was = self.screen.len();
        self.rebuild(highlighter, images);
        let ghost mid = *self;
        let line = keep_place(top, was, self.screen.len());
        self.move_to(line);
        assert(rebuilt(*old(self), mid, *highlighter, old(images).pictures()));
    }

    fn move_to(&mut self, line: usize)
        ensures
            final(self)@ == in_window(
                old(self)@,
                clamped(Window { top: line, ..old(self)@.window }, old(self)@.screen),
            ),
            final(self).book == old(self).book,
            old(self).wf() ==> final(self).wf(),
    {
        let w = self.window.at_top(line).clamp(&self.screen);
        self.place(w);
    }

    /// Acts on a change of the terminal's size.
    pub fn resize<P: ImageProvider>(
        &mut self,
        cols: u16,
        rows: u16,
        highlighter: &Highlighter,
        images: &mut P,
    )
        ensures
            exists|sized: Pager|
                sized@ == in_window(
                    old(self)@,
                    Window { cols, rows, ..old(self)@.window },
                ) && sized.book == old(self).book && #[trigger] relaid(
                    sized,
                    *final(self),
                    *highlighter,
                    old(images).pictures(),
                ),
            final(self).wf(),
            final(images).pictures() == old(images).pictures(),
    {
        let mut w = self.window;
        w.cols = cols;
        w.rows = rows;
        self.place(w);
        let ghost sized = *self;
        self.relayout(highlighter, images);
        assert(relaid(sized, *self, *highlighter, old(images).pictures()));
    }

    /// Lays out the document that was returned to, at the line it was left at.
    pub fn restore<P: ImageProvider>(
        &mut self,
        top: usize,
        highlighter: &Highlighter,
        images: &mut P,
    )
        ensures
            restored(*old(self), *final(self), top, *highlighter, old(images).pictures()),
            final(self).wf(),
            final(images).pictures() == old(images).pictures(),
    {
        self.rebuild(highlighter, images);
        let ghost mid = *self;
        self.move_to(top);
        assert(rebuilt(*old(self), mid, *highlighter, old(images).pictures()));
    }
}

// --- other documents ---------------------------------------------------------------------

/// A pager that holds the document of some sources in place of its own.
pub open spec fn holding(before: Pager, after: Pager, sources: Seq<Source>, history: Seq<Visit>) -> bool {
    &&& after@ == before@
    &&& after.book.sources@ == sources
    &&& after.book.history@ == history
    &&& after.book.settings == before.book.settings
    &&& built_from(after.book.document, sources, before.book.settings.parse)
}

/// The line of a heading, or the first.
pub open spec fn line_at(screen: Screen, fragment: Option<Seq<char>>) -> usize {
    match fragment {
        Some(id) => if screen@.anchors.dom().contains(id) {
            screen@.anchors[id]
        } else {
            0
        },
        None => 0,
    }
}

/// A pager that has left its document for another, which it shows at its start or at
/// one of its headings. What it left is on top of its history.
pub open spec fn visiting(
    before: Pager,
    after: Pager,
    source: Source,
    fragment: Option<Seq<char>>,
    highlighter: Highlighter,
    pics: Pictures,
) -> bool {
    exists|held: Pager, laid: Pager|
        holding(before, held, seq![source], held.book.history@) && held.book.history@.len()
            == before.book.history@.len() + 1 && held.book.history@.drop_last()
            == before.book.history@ && held.book.history@.last().sources == before.book.sources
            && held.book.history@.last().top == before.window.top && #[trigger] rebuilt(
            held,
            laid,
            highlighter,
            pics,
        ) && after.book == laid.book && after@ == saying(
            in_window(
                laid@,
                clamped(
                    Window { top: line_at(laid.screen, fragment), left: 0, ..laid@.window },
                    laid.screen,
                ),
            ),
            source.name@ + " (backspace to go back)"@,
        )
}

impl Pager {
    fn hold(&mut self, sources: Vec<Source>)
        ensures
            holding(*old(self), *final(self), sources@, old(self).book.history@),
    {
        self.book.document = build_document(&sources, self.book.settings.parse);
        self.book.sources = sources;
    }

    fn leave_for(&mut self, source: Source)
        ensures
            final(self).book.history@.len() == old(self).book.history@.len() + 1,
            final(self).book.history@.last().sources == old(self).book.sources,
            final(self).book.history@.last().top == old(self).window.top,
            holding(*old(self), *final(self), seq![source], final(self).book.history@),
            final(self).book.history@.drop_last() == old(self).book.history@,
    {
        let mut sources: Vec<Source> = Vec::new();
        sources.push(source);
        assert(sources@ =~= seq![source]);
        self.book.document = build_document(&sources, self.book.settings.parse);
        std::mem::swap(&mut self.book.sources, &mut sources);
        let top = self.window.top;
        let ghost before = self.book.history@;
        self.book.history.push(Visit { sources, top });
        assert(self.book.history@.drop_last() =~= before);
    }

    /// Shows the sources as they were read again.
    pub fn reload<P: ImageProvider>(
        &mut self,
        sources: Vec<Source>,
        highlighter: &Highlighter,
        images: &mut P,
    )
        ensures
            exists|held: Pager, laid: Pager|
                holding(*old(self), held, sources@, old(self).book.history@)
                    && #[trigger] relaid(held, laid, *highlighter, old(images).pictures())
                    && final(self)@ == saying(laid@, "reloaded"@) && final(self).book
                    == laid.book,
            final(self).wf(),
            final(images).pictures() == old(images).pictures(),
    {
        self.hold(sources);
        let ghost held = *self;
        self.relayout(highlighter, images);
        let ghost laid = *self;
        self.say(text::owned("reloaded"));
        assert(relaid(held, laid, *highlighter, old(images).pictures()));
    }

    /// Shows another document in place of the current one, at its start or at one of
    /// its headings. The current one goes onto the history.
    pub fn show<P: ImageProvider>(
        &mut self,
        source: Source,
        fragment: Option<String>,
        highlighter: &Highlighter,
        images: &mut P,
    )
        ensures
            visiting(
                *old(self),
                *final(self),
                source,
                opt_text(fragment),
                *highlighter,
                old(images).pictures(),
            ),
            final(self).wf(),
            final(images).pictures() == old(images).pictures(),
    {
        let mut said = text::owned(&source.name);
        said.push_str(" (backspace to go back)");
        self.leave_for(source);
        let ghost held = *self;
        self.rebuild(highlighter, images);
        let ghost laid = *self;
        let line: usize = match &fragment {
            Some(id) => match self.screen.anchor(id) {
                Some(line) => line,
                None => 0,
            },
            None => 0,
        };
        let mut w = self.window;
        w.top = line;
        w.left = 0;
        let w = w.clamp(&self.screen);
        self.place(w);
        self.say(said);
        assert(rebuilt(held, laid, *highlighter, old(images).pictures()));
    }
}

/// Whether a document is simply printed: starting a full-screen session to show six
/// lines, and wiping them on exit, is a worse experience than the output just being
/// there. Watching, or asking for the pager by name, still gets the pager.
pub fn prints_instead(lines: usize, rows: u16, watch: bool, forced: bool) -> (r: bool)
    ensures
        r == (lines < (if rows > 0 {
            rows - 1
        } else {
            0
        }) && !watch && !forced),
{
    lines < rows.saturating_sub(1) as usize && !watch && !forced
}

// --- waiting for changes to settle -----------------------------------------------------------

/// A file save often arrives as several events; this many milliseconds without one and
/// they have settled.
pub const RELOAD_DEBOUNCE_MS: u64 = 120;

/// The time of the last change that has not been acted on.
#[derive(Debug, Clone, Copy, PartialEq, Eq)]
pub struct Debounce {
    pub pending: Option<u64>,
}

impl Debounce {
    /// True once changes have stopped arriving for long enough. `arrived` says whether
    /// any came since the last question, and `now` is the time in milliseconds.
    pub fn changed(&mut self, arrived: bool, now: u64) -> (r: bool)
        ensures
            ({
                let last = if arrived {
                    Some(now)
                } else {
                    old(self).pending
                };
                let due = last matches Some(at) && now - at >= RELOAD_DEBOUNCE_MS;
                r == due && final(self).pending == (if due {
                    None
                } else {
                    last
                })
            }),
    {
        if arrived {
            self.pending = Some(now);
        }
        match self.pending {
            Some(at) => {
                if now >= at && now - at >= RELOAD_DEBOUNCE_MS {
                    self.pending = None;
                    true
                } else {
                    false
                }
            },
            None => false,
        }
    }
}

/// Going back undoes following a link: the reader gets the sources that were left, the
/// history from before, and the line they were on, as far as the document still has it.
pub proof fn going_back_returns(
    start: Pager,
    away: Pager,
    back: Pager,
    home: Pager,
    source: Source,
    fragment: Option<Seq<char>>,
    highlighter: Highlighter,
    pics: Pictures,
    p: PagerV,
    action: ActionV,
)
    requires
        visiting(start, away, source, fragment, highlighter, pics),
        went_back(away, p, back, action),
        restored(back, home, start.window.top, highlighter, pics),
    ensures
        action == ActionV::Restore(start.window.top as int),
        home.book.sources == start.book.sources,
        home.book.history@ == start.book.history@,
        built_from(
            home.book.document,
            start.book.sources@,
            away.book.settings.parse,
        ),
        home.window.top == at_most(
            start.window.top as int,
            max_top_of(home.window, home.screen),
        ),
{
    reveal(rebuilt);
}

} // verus!
