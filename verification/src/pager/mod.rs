//! The interactive viewer.
//!
//! The pager owns a [`Screen`] and a viewport into it. Scrolling moves the viewport; it
//! never lays the document out again. That happens only when something changes the
//! layout -- a resize, a reload, toggling images -- which is what keeps scrolling
//! instant on a large document.
//!
//! The pager decides; it does not act. A key or a click changes its state and may ask
//! for something to be done outside it, as an [`Action`]: read a file again, open a
//! link, put text on the clipboard. Whoever runs it does that and says what came of it.
use vstd::prelude::*;

pub mod frame;
pub mod layout;
pub mod links;
pub mod overlay;
pub mod search;
pub mod window;

pub use self::links::openable;
pub use self::window::{Click, Key, KeyPress, Mode, Panel, Window};

use self::links::{fragment, fragment_of, link_target, link_target_of, opens};
use self::search::{
    after_current, before_current, first_from, focus_of, focusing, found, Match, Search, SearchV,
};
use self::window::{
    clamped, code_from, code_on_screen, into_view, link_over, link_under, max_top_of, moving_key,
    panel_move, panel_opened, scrolled, scrolled_to, viewport_of,
};
use crate::cli::Settings;
use crate::markdown::ir::{opt_text, Document};
use crate::markdown::parse::ParseOptions;
use crate::markdown::rebase::RootV;
use crate::render::{sat, spans_view, Screen};
use crate::source::{
    all_read, build_document, merged, roots_fit, source_views, Origin, OriginV, Source,
};
use crate::text;

verus! {

/// What the pager asks for.
#[derive(Debug, PartialEq, Eq)]
pub enum Action {
    Nothing,
    /// Read every source again, then reload.
    Reload,
    /// Lay the document out again, keeping the reader in roughly the same place.
    Relayout,
    /// Lay out the document that was returned to, and scroll it to this line.
    Restore(usize),
    /// Follow this link.
    Follow(String),
    /// Open this document, at this anchor.
    Open(Origin, Option<String>),
    /// Hand this link to the system.
    Browse(String),
    /// Put the first on the clipboard, and say the second if that works.
    Copy(String, String),
    /// Tell the terminal who has the mouse.
    Mouse(bool),
}

pub enum ActionV {
    Nothing,
    Reload,
    Relayout,
    Restore(int),
    Follow(Seq<char>),
    Open(OriginV, Option<Seq<char>>),
    Browse(Seq<char>),
    Copy(Seq<char>, Seq<char>),
    Mouse(bool),
}

impl View for Action {
    type V = ActionV;

    open spec fn view(&self) -> ActionV {
        match *self {
            Action::Nothing => ActionV::Nothing,
            Action::Reload => ActionV::Reload,
            Action::Relayout => ActionV::Relayout,
            Action::Restore(top) => ActionV::Restore(top as int),
            Action::Follow(url) => ActionV::Follow(url@),
            Action::Open(origin, fragment) => ActionV::Open(origin@, opt_text(fragment)),
            Action::Browse(url) => ActionV::Browse(url@),
            Action::Copy(code, said) => ActionV::Copy(code@, said@),
            Action::Mouse(on) => ActionV::Mouse(on),
        }
    }
}

/// A document that can be returned to.
#[derive(Debug)]
pub struct Visit {
    pub sources: Vec<Source>,
    pub top: usize,
}

/// What is being read.
#[derive(Debug)]
pub struct Book {
    pub sources: Vec<Source>,
    pub document: Document,
    pub settings: Settings,
    /// Documents that were navigated away from, for going back.
    pub history: Vec<Visit>,
}

/// The viewer's state.
#[derive(Debug)]
pub struct Pager {
    pub book: Book,
    pub screen: Screen,
    pub window: Window,
    pub search: Option<Search>,
    pub input: String,
    pub message: Option<String>,
}

/// What a key or a click can see and change.
pub struct PagerV {
    pub screen: Screen,
    pub window: Window,
    pub search: Option<SearchV>,
    pub input: Seq<char>,
    pub message: Option<Seq<char>>,
}

impl View for Pager {
    type V = PagerV;

    open spec fn view(&self) -> PagerV {
        PagerV {
            screen: self.screen,
            window: self.window,
            search: match self.search {
                Some(s) => Some(s@),
                None => None,
            },
            input: self.input@,
            message: opt_text(self.message),
        }
    }
}

impl PagerV {
    /// The search's focus is one of its matches.
    pub open spec fn wf(self) -> bool {
        self.search matches Some(s) ==> s.wf()
    }
}

// --- what keys do -----------------------------------------------------------------------

pub open spec fn saying(p: PagerV, s: Seq<char>) -> PagerV {
    PagerV { message: Some(s), ..p }
}

pub open spec fn in_window(p: PagerV, w: Window) -> PagerV {
    PagerV { window: w, ..p }
}

/// The search for what has been typed, following its first match from the top of the
/// window, so that the search is incremental.
#[verifier::opaque]
pub open spec fn search_updated(p: PagerV) -> PagerV {
    let fresh = SearchV { query: p.input, matches: found(p.input, p.screen@), current: 0 };
    let focused = focusing(fresh, first_from(fresh.matches, p.window.top as int, 0));
    let q = PagerV { search: Some(focused), ..p };
    match focus_of(focused) {
        Some(m) => in_window(q, into_view(p.window, p.screen, m.line as int)),
        None => q,
    }
}

/// A way to move between matches.
#[derive(Debug, Clone, Copy, PartialEq, Eq, Structural)]
pub enum Step {
    Next,
    Previous,
    /// To the first match at or below a line.
    From(usize),
}

/// A search after one step.
#[verifier::opaque]
pub open spec fn stepped(s: SearchV, step: Step) -> SearchV {
    focusing(
        s,
        match step {
            Step::Next => after_current(s),
            Step::Previous => before_current(s),
            Step::From(line) => first_from(s.matches, line as int, 0),
        },
    )
}

/// A match that was jumped to, or the word that there is none.
pub open spec fn landed(p: PagerV, target: Option<Match>, missing: Seq<char>) -> PagerV {
    match target {
        None => saying(p, missing),
        Some(m) => in_window(p, scrolled_to(p.window, p.screen, m.line as int)),
    }
}

/// The next match, or the previous one.
#[verifier::opaque]
pub open spec fn search_jumped(p: PagerV, backward: bool) -> PagerV {
    match p.search {
        None => saying(p, "no previous search"@),
        Some(s) => {
            let next = stepped(
                s,
                if backward {
                    Step::Previous
                } else {
                    Step::Next
                },
            );
            let q = PagerV { search: Some(next), ..p };
            landed(q, focus_of(next), "no matches"@)
        },
    }
}

/// A search that is accepted: a jump from where the reader is looking, not from the top
/// of the document.
#[verifier::opaque]
pub open spec fn search_accepted(p: PagerV, backward: bool) -> PagerV {
    let w = Window { mode: Mode::Normal, ..p.window };
    match p.search {
        None => in_window(p, w),
        Some(s) => {
            let next = stepped(
                s,
                if backward {
                    Step::Previous
                } else {
                    Step::From(sat(p.window.top + 1) as usize)
                },
            );
            let q = PagerV { search: Some(next), ..in_window(p, w) };
            landed(q, focus_of(next), "not found: "@ + p.input)
        },
    }
}

/// The query with its last character taken off.
pub open spec fn query_shortened(p: PagerV) -> PagerV {
    PagerV {
        input: if p.input.len() > 0 {
            p.input.drop_last()
        } else {
            p.input
        },
        ..p
    }
}

/// A search that is called off.
pub open spec fn search_cancelled(p: PagerV) -> PagerV {
    PagerV {
        window: Window { mode: Mode::Normal, ..p.window },
        search: None,
        input: Seq::empty(),
        ..p
    }
}

pub open spec fn settled(p: PagerV) -> PagerV {
    in_window(p, clamped(p.window, p.screen))
}

/// What a key does while a query is typed.
#[verifier::opaque]
pub open spec fn search_key(p: PagerV, key: Key, backward: bool) -> PagerV {
    settled(
        match key {
            Key::Esc => search_cancelled(p),
            Key::Enter => search_accepted(p, backward),
            Key::Backspace => search_updated(query_shortened(p)),
            Key::Char(c) => search_updated(PagerV { input: p.input.push(c), ..p }),
            _ => p,
        },
    )
}

/// What choosing the selected row does.
#[verifier::opaque]
pub open spec fn row_chosen(p: PagerV, panel: Panel) -> (PagerV, ActionV) {
    let closed = Window { mode: Mode::Normal, ..p.window };
    let row = p.window.selection as int;
    match panel {
        Panel::Contents => if row < p.screen@.headings.len() {
            (
                in_window(
                    p,
                    scrolled_to(closed, p.screen, p.screen@.headings[row].line as int),
                ),
                ActionV::Nothing,
            )
        } else {
            (p, ActionV::Nothing)
        },
        Panel::Links => if row < p.screen@.links.len() {
            (in_window(p, closed), ActionV::Follow(p.screen@.links[row]))
        } else {
            (p, ActionV::Nothing)
        },
        Panel::Help => (in_window(p, closed), ActionV::Nothing),
    }
}

/// What copying the selected link does.
pub open spec fn link_copied(p: PagerV) -> (PagerV, ActionV) {
    let row = p.window.selection as int;
    if row < p.screen@.links.len() {
        (p, ActionV::Copy(p.screen@.links[row], p.screen@.links[row]))
    } else {
        (saying(p, "no link to copy"@), ActionV::Nothing)
    }
}

/// What a key does while a panel is open.
#[verifier::opaque]
pub open spec fn panel_key(p: PagerV, key: Key, panel: Panel) -> (PagerV, ActionV) {
    match panel_move(p.window, p.screen, key, panel) {
        Some(w) => (in_window(p, w), ActionV::Nothing),
        None => match key {
            Key::Enter => row_chosen(p, panel),
            Key::Char('y') if panel == Panel::Links => link_copied(p),
            _ => (p, ActionV::Nothing),
        },
    }
}

/// What is said of code that was copied.
pub open spec fn copied_text(code: Seq<char>) -> Seq<char> {
    let n = text::lines(code).len();
    "copied "@ + text::decimal(n) + (if n == 1 {
        " line"@
    } else {
        " lines"@
    })
}

/// What `y` does: it copies the first code block on screen. The first visible one
/// rather than the nearest one: a reader looking at a block and pressing `y` means that
/// block.
#[verifier::opaque]
pub open spec fn code_copied(p: PagerV) -> (PagerV, ActionV) {
    match code_on_screen(p.window, p.screen) {
        Some(code) => (p, ActionV::Copy(code, copied_text(code))),
        None => (saying(p, "no code block on screen"@), ActionV::Nothing),
    }
}

pub open spec fn images_toggled(p: PagerV) -> PagerV {
    let on = !p.window.images;
    saying(
        in_window(p, Window { images: on, ..p.window }),
        if on {
            "images on"@
        } else {
            "images off"@
        },
    )
}

pub open spec fn mouse_toggled(p: PagerV) -> PagerV {
    let on = !p.window.mouse;
    saying(
        in_window(p, Window { mouse: on, ..p.window }),
        if on {
            "mouse: termmd (click follows links, shift-drag to select)"@
        } else {
            "mouse: terminal (drag to select, wheel scrolls)"@
        },
    )
}

pub open spec fn search_begun(p: PagerV, backward: bool) -> PagerV {
    PagerV {
        window: Window { mode: Mode::Searching { backward }, ..p.window },
        input: Seq::empty(),
        ..p
    }
}

/// What a key does in a document that is being read, apart from moving and going back.
#[verifier::opaque]
pub open spec fn doing_key(p: PagerV, key: Key) -> (PagerV, ActionV) {
    let stay = ActionV::Nothing;
    match key {
        Key::Char('/') => (search_begun(p, false), stay),
        Key::Char('?') => (search_begun(p, true), stay),
        Key::Char('n') => (search_jumped(p, false), stay),
        Key::Char('N') => (search_jumped(p, true), stay),
        Key::Char('t') => (
            in_window(p, panel_opened(p.window, p.screen, Panel::Contents)),
            stay,
        ),
        Key::Char('L') => (in_window(p, panel_opened(p.window, p.screen, Panel::Links)), stay),
        Key::Char('H') | Key::F(1) => (
            in_window(p, panel_opened(p.window, p.screen, Panel::Help)),
            stay,
        ),
        Key::Char('y') => code_copied(p),
        Key::Char('r') => (p, ActionV::Reload),
        Key::Char('i') => (images_toggled(p), ActionV::Relayout),
        Key::Char('m') => (mouse_toggled(p), ActionV::Mouse(!p.window.mouse)),
        _ => (p, stay),
    }
}

/// What a key does in a document that is being read, apart from going back.
pub open spec fn reading_key(p: PagerV, key: Key, ctrl: bool) -> (PagerV, ActionV) {
    let (q, action) = match moving_key(p.window, p.screen, key, ctrl) {
        Some(w) => (in_window(p, w), ActionV::Nothing),
        None => doing_key(p, key),
    };
    (settled(q), action)
}

/// True of the key that goes back.
pub open spec fn goes_back(p: PagerV, key: KeyPress) -> bool {
    !key.release && p.window.mode == Mode::Normal && key.code == Key::Backspace
}

/// What a key does, apart from going back. A key that is let go does nothing, or every
/// keystroke would count twice.
#[verifier::opaque]
pub open spec fn after_key(p: PagerV, key: KeyPress) -> (PagerV, ActionV) {
    if key.release {
        (p, ActionV::Nothing)
    } else {
        let q = PagerV { message: None, ..p };
        match p.window.mode {
            Mode::Searching { backward } => (search_key(q, key.code, backward), ActionV::Nothing),
            Mode::Panel(panel) => panel_key(q, key.code, panel),
            Mode::Normal => reading_key(q, key.code, key.ctrl),
        }
    }
}

/// True of a document that was built from some sources.
pub open spec fn built_from(d: Document, sources: Seq<Source>, options: ParseOptions) -> bool {
    exists|roots: Seq<RootV>| #[trigger]
        roots_fit(source_views(sources), roots) && d@ == merged(
            all_read(source_views(sources), options, roots),
        )
}

/// What going back does: the last document that was left comes back, to be laid out and
/// scrolled to where it was. The state is `p` otherwise.
pub open spec fn went_back(before: Pager, p: PagerV, after: Pager, action: ActionV) -> bool {
    let history = before.book.history@;
    if history.len() == 0 {
        after@ == saying(p, "nothing to go back to"@) && after.book == before.book && action
            == ActionV::Nothing
    } else {
        after@ == p && after.book.sources == history.last().sources && after.book.history@
            == history.drop_last() && after.book.settings == before.book.settings && built_from(
            after.book.document,
            history.last().sources@,
            before.book.settings.parse,
        ) && action == ActionV::Restore(history.last().top as int)
    }
}

// --- the mouse and links ------------------------------------------------------------------

/// What the mouse does. Taking it over means taking over link clicks too.
pub open spec fn after_click(p: PagerV, click: Click) -> (PagerV, ActionV) {
    match click {
        Click::ScrollDown => (
            in_window(p, Window { dirty: true, ..scrolled(p.window, p.screen, 3) }),
            ActionV::Nothing,
        ),
        Click::ScrollUp => (
            in_window(p, Window { dirty: true, ..scrolled(p.window, p.screen, -3) }),
            ActionV::Nothing,
        ),
        Click::Left { row, column } => match link_under(
            p.window,
            p.screen,
            row as int,
            column as int,
        ) {
            Some(i) if i < p.screen@.links.len() => (
                in_window(p, Window { dirty: true, ..p.window }),
                ActionV::Follow(p.screen@.links[i as int]),
            ),
            _ => (p, ActionV::Nothing),
        },
        Click::Other => (p, ActionV::Nothing),
    }
}

/// What following a link does, in order of how much the reader probably wanted to stay
/// where they are: an anchor in the document scrolls, a link to another document opens
/// it here, and anything else is handed to the system.
pub open spec fn following(p: PagerV, url: Seq<char>, is_dir: bool, is_file: bool) -> (
    PagerV,
    ActionV,
) {
    if url.len() > 0 && url[0] == '#' {
        let anchor = url.subrange(1, url.len() as int);
        if p.screen@.anchors.dom().contains(anchor) {
            (
                in_window(
                    p,
                    scrolled_to(p.window, p.screen, p.screen@.anchors[anchor] as int),
                ),
                ActionV::Nothing,
            )
        } else {
            (saying(p, "no heading "@ + url), ActionV::Nothing)
        }
    } else {
        match opens(link_target_of(url), is_dir, is_file) {
            Some(origin) => (p, ActionV::Open(origin, fragment_of(url))),
            None => (p, ActionV::Browse(url)),
        }
    }
}

// --- doing it ---------------------------------------------------------------------------------

impl Pager {
    pub open spec fn wf(&self) -> bool {
        self@.wf()
    }

    /// Rows available for the document, leaving one for the status bar.
    pub fn viewport(&self) -> (r: usize)
        ensures
            r == viewport_of(self.window),
    {
        self.window.viewport()
    }

    /// The furthest the document may be scrolled: the last screenful, not the last line.
    pub fn max_top(&self) -> (r: usize)
        ensures
            r == max_top_of(self.window, self.screen),
    {
        self.window.max_top(&self.screen)
    }

    pub(crate) fn place(&mut self, w: Window)
        ensures
            final(self)@ == in_window(old(self)@, w),
            final(self).book == old(self).book,
            old(self).wf() ==> final(self).wf(),
    {
        self.window = w;
    }

    fn settle(&mut self)
        ensures
            final(self)@ == settled(old(self)@),
            final(self).book == old(self).book,
            old(self).wf() ==> final(self).wf(),
    {
        let w = self.window.clamp(&self.screen);
        self.place(w);
    }

    /// Shows a message in the status bar.
    pub fn say(&mut self, message: String)
        ensures
            final(self)@ == saying(old(self)@, message@),
            final(self).book == old(self).book,
            old(self).wf() ==> final(self).wf(),
    {
        self.message = Some(message);
    }

    fn update_search(&mut self)
        ensures
            final(self)@ == search_updated(old(self)@),
            final(self).book == old(self).book,
            final(self).wf(),
    {
        reveal(search_updated);
        let mut search = Search::new(&self.input, &self.screen);
        let focus = search.focus_from(self.window.top);
        self.search = Some(search);
        match focus {
            Some(m) => {
                let w = self.window.scroll_into_view(&self.screen, m.line);
                self.place(w);
            },
            None => {},
        }
    }

    fn step_search(&mut self, step: Step) -> (r: Option<Match>)
        requires
            old(self).wf(),
            old(self)@.search is Some,
        ensures
            final(self)@ == (PagerV {
                search: Some(stepped(old(self)@.search->0, step)),
                ..old(self)@
            }),
            r == focus_of(stepped(old(self)@.search->0, step)),
            final(self).book == old(self).book,
            final(self).wf(),
    {
        reveal(stepped);
        match &mut self.search {
            None => None,
            Some(search) => match step {
                Step::Next => search.advance(),
                Step::Previous => search.retreat(),
                Step::From(line) => search.focus_from(line),
            },
        }
    }

    fn land(&mut self, target: Option<Match>, missing: String)
        ensures
            final(self)@ == landed(old(self)@, target, missing@),
            final(self).book == old(self).book,
            old(self).wf() ==> final(self).wf(),
    {
        match target {
            Some(m) => {
                let w = self.window.scroll_to(&self.screen, m.line);
                self.place(w);
            },
            None => self.say(missing),
        }
    }

    fn jump_search(&mut self, backward: bool)
        requires
            old(self).wf(),
        ensures
            final(self)@ == search_jumped(old(self)@, backward),
            final(self).book == old(self).book,
            final(self).wf(),
    {
        reveal(search_jumped);
        if self.search.is_none() {
            self.say(text::owned("no previous search"));
            return;
        }
        let target = self.step_search(
            if backward {
                Step::Previous
            } else {
                Step::Next
            },
        );
        self.land(target, text::owned("no matches"));
    }

    fn accept_search(&mut self, backward: bool)
        requires
            old(self).wf(),
        ensures
            final(self)@ == search_accepted(old(self)@, backward),
            final(self).book == old(self).book,
            final(self).wf(),
    {
        reveal(search_accepted);
        let from = self.window.top.saturating_add(1);
        let closed = self.window.in_mode(Mode::Normal);
        self.place(closed);
        if self.search.is_none() {
            return;
        }
        let target = self.step_search(
            if backward {
                Step::Previous
            } else {
                Step::From(from)
            },
        );
        let mut missing = text::owned("not found: ");
        missing.push_str(&self.input);
        self.land(target, missing);
    }

    fn cancel_search(&mut self)
        ensures
            final(self)@ == search_cancelled(old(self)@),
            final(self).book == old(self).book,
            final(self).wf(),
    {
        self.window = self.window.in_mode(Mode::Normal);
        self.search = None;
        self.input.clear();
    }

    fn start_search(&mut self, backward: bool)
        ensures
            final(self)@ == search_begun(old(self)@, backward),
            final(self).book == old(self).book,
            old(self).wf() ==> final(self).wf(),
    {
        self.window = self.window.in_mode(Mode::Searching { backward });
        self.input.clear();
    }

    fn shorten_query(&mut self)
        ensures
            final(self)@ == query_shortened(old(self)@),
            final(self).book == old(self).book,
    {
        self.input.pop();
    }

    fn lengthen_query(&mut self, c: char)
        ensures
            final(self)@ == (PagerV { input: old(self)@.input.push(c), ..old(self)@ }),
            final(self).book == old(self).book,
    {
        self.input.push(c);
    }

    fn on_search_key(&mut self, key: Key, backward: bool)
        requires
            old(self).wf(),
        ensures
            final(self)@ == search_key(old(self)@, key, backward),
            final(self).book == old(self).book,
            final(self).wf(),
    {
        reveal(search_key);
        match key {
            Key::Esc => self.cancel_search(),
            Key::Enter => self.accept_search(backward),
            Key::Backspace => {
                self.shorten_query();
                self.update_search();
            },
            Key::Char(c) => {
                self.lengthen_query(c);
                self.update_search();
            },
            _ => {},
        }
        self.settle();
    }

    fn link(&self, index: usize) -> (r: Option<String>)
        ensures
            opt_text(r) == (if index < self.screen@.links.len() {
                Some(self.screen@.links[index as int])
            } else {
                None
            }),
    {
        if index < self.screen.links.len() {
            assert(self.screen@.links[index as int] == self.screen.links@[index as int]@);
            Some(text::owned(&self.screen.links[index]))
        } else {
            None
        }
    }

    fn activate_panel_selection(&mut self, panel: Panel) -> (r: Action)
        ensures
            (final(self)@, r@) == row_chosen(old(self)@, panel),
            final(self).book == old(self).book,
            old(self).wf() ==> final(self).wf(),
    {
        reveal(row_chosen);
        let closed = self.window.in_mode(Mode::Normal);
        let row = self.window.selection;
        match panel {
            Panel::Contents => {
                if row < self.screen.headings.len() {
                    let line = self.screen.headings[row].line;
                    assert(self.screen@.headings[row as int] == self.screen.headings@[row as int]@);
                    let w = closed.scroll_to(&self.screen, line);
                    self.place(w);
                }
                Action::Nothing
            },
            Panel::Links => match self.link(row) {
                Some(url) => {
                    self.place(closed);
                    Action::Follow(url)
                },
                None => Action::Nothing,
            },
            Panel::Help => {
                self.place(closed);
                Action::Nothing
            },
        }
    }

    fn copy_link(&mut self) -> (r: Action)
        ensures
            (final(self)@, r@) == link_copied(old(self)@),
            final(self).book == old(self).book,
            old(self).wf() ==> final(self).wf(),
    {
        match self.link(self.window.selection) {
            Some(url) => {
                let said = text::owned(&url);
                Action::Copy(url, said)
            },
            None => {
                self.say(text::owned("no link to copy"));
                Action::Nothing
            },
        }
    }

    fn on_panel_key(&mut self, key: Key, panel: Panel) -> (r: Action)
        requires
            old(self).wf(),
        ensures
            (final(self)@, r@) == panel_key(old(self)@, key, panel),
            final(self).book == old(self).book,
            final(self).wf(),
    {
        reveal(panel_key);
        match self.window.panel_move(&self.screen, key, panel) {
            Some(w) => {
                self.place(w);
                Action::Nothing
            },
            None => match key {
                Key::Enter => self.activate_panel_selection(panel),
                Key::Char(c) => if c == 'y' && panel == Panel::Links {
                    self.copy_link()
                } else {
                    Action::Nothing
                },
                _ => Action::Nothing,
            },
        }
    }

    /// The source of the first code block showing in the window.
    pub fn visible_code(&self) -> (r: Option<&String>)
        ensures
            (match r {
                Some(code) => Some(code@),
                None => None,
            }) == code_on_screen(self.window, self.screen),
    {
        let ghost v = self.screen@.lines;
        let top = self.window.top;
        let height = self.viewport();
        let end: usize = top.saturating_add(height);
        let mut k: usize = top;
        while k < end && k < self.screen.lines.len() && self.screen.lines[k].code.is_none()
            invariant
                v == self.screen@.lines,
                end == sat(top + height),
                top <= k,
                code_from(v, k as int, top + height) == code_from(v, top as int, top + height),
            decreases end - k,
        {
            assert(v[k as int] == self.screen.lines@[k as int]@);
            k = k + 1;
        }
        assert(v.len() == self.screen.lines.len());
        if k < end && k < self.screen.lines.len() {
            assert(v[k as int] == self.screen.lines@[k as int]@);
            match self.screen.lines[k].code {
                Some(i) => {
                    if i < self.screen.code_blocks.len() {
                        assert(self.screen@.code_blocks[i as int]
                            == self.screen.code_blocks@[i as int]@);
                        Some(&self.screen.code_blocks[i])
                    } else {
                        None
                    }
                },
                None => None,
            }
        } else {
            None
        }
    }

    /// Copies the first code block on screen.
    fn copy_visible_code(&mut self) -> (r: Action)
        ensures
            (final(self)@, r@) == code_copied(old(self)@),
            final(self).book == old(self).book,
            old(self).wf() ==> final(self).wf(),
    {
        reveal(code_copied);
        let code = match self.visible_code() {
            Some(code) => text::owned(code),
            None => {
                self.say(text::owned("no code block on screen"));
                return Action::Nothing;
            },
        };
        let n: usize = text::lines_of(&code).len();
        let mut said = text::owned("copied ");
        text::push_decimal(&mut said, n as u64);
        said.push_str(
            if n == 1 {
                " line"
            } else {
                " lines"
            },
        );
        Action::Copy(code, said)
    }

    fn toggle_images(&mut self)
        ensures
            final(self)@ == images_toggled(old(self)@),
            final(self).book == old(self).book,
            old(self).wf() ==> final(self).wf(),
    {
        let on = !self.window.images;
        self.window.images = on;
        self.message = Some(
            text::owned(
                if on {
                    "images on"
                } else {
                    "images off"
                },
            ),
        );
    }

    /// Switches between letting the terminal have the mouse and taking it.
    fn toggle_mouse(&mut self)
        ensures
            final(self)@ == mouse_toggled(old(self)@),
            final(self).book == old(self).book,
            old(self).wf() ==> final(self).wf(),
    {
        let on = !self.window.mouse;
        self.window.mouse = on;
        self.message = Some(
            text::owned(
                if on {
                    "mouse: termmd (click follows links, shift-drag to select)"
                } else {
                    "mouse: terminal (drag to select, wheel scrolls)"
                },
            ),
        );
    }

    fn open_panel(&mut self, panel: Panel)
        ensures
            final(self)@ == in_window(
                old(self)@,
                panel_opened(old(self)@.window, old(self)@.screen, panel),
            ),
            final(self).book == old(self).book,
            old(self).wf() ==> final(self).wf(),
    {
        let w = self.window.open_panel(&self.screen, panel);
        self.place(w);
    }

    fn on_doing_key(&mut self, key: Key) -> (r: Action)
        requires
            old(self).wf(),
        ensures
            (final(self)@, r@) == doing_key(old(self)@, key),
            final(self).book == old(self).book,
            final(self).wf(),
    {
        reveal(doing_key);
        match key {
            Key::F(n) => if n == 1 {
                self.open_panel(Panel::Help);
            },
            Key::Char(c) => match c {
                '/' => self.start_search(false),
                '?' => self.start_search(true),
                'n' => self.jump_search(false),
                'N' => self.jump_search(true),
                't' => self.open_panel(Panel::Contents),
                'L' => self.open_panel(Panel::Links),
                'H' => self.open_panel(Panel::Help),
                'y' => {
                    return self.copy_visible_code();
                },
                'r' => {
                    return Action::Reload;
                },
                'i' => {
                    self.toggle_images();
                    return Action::Relayout;
                },
                'm' => {
                    self.toggle_mouse();
                    return Action::Mouse(self.window.mouse);
                },
                _ => {},
            },
            _ => {},
        }
        Action::Nothing
    }

    fn on_normal_key(&mut self, key: Key, ctrl: bool) -> (r: Action)
        requires
            old(self).wf(),
        ensures
            (final(self)@, r@) == reading_key(old(self)@, key, ctrl),
            final(self).book == old(self).book,
            final(self).wf(),
    {
        let action = match self.window.moving_key(&self.screen, key, ctrl) {
            Some(w) => {
                self.place(w);
                Action::Nothing
            },
            None => self.on_doing_key(key),
        };
        self.settle();
        action
    }

    fn quieten(&mut self)
        ensures
            final(self)@ == (PagerV { message: None, ..old(self)@ }),
            final(self).book == old(self).book,
    {
        self.message = None;
    }

    /// Acts on a key.
    pub fn on_key(&mut self, key: KeyPress) -> (r: Action)
        requires
            old(self).wf(),
        ensures
            goes_back(old(self)@, key) ==> went_back(
                *old(self),
                (PagerV { message: None, ..old(self)@ }),
                *final(self),
                r@,
            ),
            !goes_back(old(self)@, key) ==> (final(self)@, r@) == after_key(old(self)@, key)
                && final(self).book == old(self).book,
            final(self).wf(),
    {
        reveal(after_key);
        if key.release {
            return Action::Nothing;
        }
        self.quieten();
        if self.window.mode == Mode::Normal && key.code == Key::Backspace {
            return self.go_back();
        }
        match self.window.mode {
            Mode::Searching { backward } => {
                self.on_search_key(key.code, backward);
                Action::Nothing
            },
            Mode::Panel(panel) => self.on_panel_key(key.code, panel),
            Mode::Normal => self.on_normal_key(key.code, key.ctrl),
        }
    }

    /// Returns to the document that was left for this one.
    pub fn go_back(&mut self) -> (r: Action)
        ensures
            went_back(*old(self), old(self)@, *final(self), r@),
            old(self).wf() ==> final(self).wf(),
    {
        if self.book.history.len() == 0 {
            self.say(text::owned("nothing to go back to"));
            return Action::Nothing;
        }
        match self.book.history.pop() {
            None => Action::Nothing,
            Some(previous) => {
                self.book.document = build_document(&previous.sources, self.book.settings.parse);
                self.book.sources = previous.sources;
                Action::Restore(previous.top)
            },
        }
    }

    /// The link under a screen cell, if any.
    pub fn link_at(&self, row: u16, column: u16) -> (r: Option<usize>)
        ensures
            r == link_under(self.window, self.screen, row as int, column as int),
    {
        let ghost v = self.screen@.lines;
        assert(v.len() == self.screen.lines.len());
        let down: usize = row as usize;
        let top = self.window.top;
        if down >= self.viewport() || top >= self.screen.lines.len() || down
            >= self.screen.lines.len() - top {
            return None;
        }
        let spans = &self.screen.lines[top + down].spans;
        assert(v[top + down] == self.screen.lines@[top + down]@);
        let ghost sv = v[top + down].spans;
        let target = self.window.left.saturating_add(column as usize);
        let ghost under = link_under(self.window, self.screen, row as int, column as int);
        let mut at: usize = 0;
        let mut k: usize = 0;
        while k < spans.len()
            invariant
                k <= spans.len(),
                sv == spans_view(spans@),
                link_over(sv, k as int, at as int, target as int) == under,
                under == link_under(self.window, self.screen, row as int, column as int),
            decreases spans.len() - k,
        {
            assert(sv[k as int] == spans@[k as int]@);
            let end = at.saturating_add(spans[k].width());
            if target < end {
                return spans[k].link;
            }
            at = end;
            k = k + 1;
        }
        None
    }

    /// Acts on the mouse.
    pub fn on_mouse(&mut self, click: Click) -> (r: Action)
        ensures
            (final(self)@, r@) == after_click(old(self)@, click),
            final(self).book == old(self).book,
            old(self).wf() ==> final(self).wf(),
    {
        match click {
            Click::ScrollDown => {
                let mut w = self.window.scroll_down(&self.screen, 3);
                w.dirty = true;
                self.place(w);
                Action::Nothing
            },
            Click::ScrollUp => {
                let mut w = self.window.scroll_up(&self.screen, 3);
                w.dirty = true;
                self.place(w);
                Action::Nothing
            },
            Click::Left { row, column } => match self.link_at(row, column) {
                Some(i) => match self.link(i) {
                    Some(url) => {
                        let mut w = self.window;
                        w.dirty = true;
                        self.place(w);
                        Action::Follow(url)
                    },
                    None => Action::Nothing,
                },
                None => Action::Nothing,
            },
            Click::Other => Action::Nothing,
        }
    }

    /// Follows a link, given what its target is on this machine.
    pub fn follow(&mut self, url: &str, is_dir: bool, is_file: bool) -> (r: Action)
        ensures
            (final(self)@, r@) == following(old(self)@, url@, is_dir, is_file),
            final(self).book == old(self).book,
            old(self).wf() ==> final(self).wf(),
    {
        let v = text::chars_of(url);
        if v.len() > 0 && v[0] == '#' {
            match self.screen.anchor(&text::string_of_range(&v, 1, v.len())) {
                Some(line) => {
                    let w = self.window.scroll_to(&self.screen, line);
                    self.place(w);
                },
                None => {
                    let mut s = text::owned("no heading ");
                    s.push_str(url);
                    self.say(s);
                },
            }
            return Action::Nothing;
        }
        match openable(&link_target(url), is_dir, is_file) {
            Some(origin) => Action::Open(origin, fragment(url)),
            None => Action::Browse(text::owned(url)),
        }
    }
}


/// The escape sequences that put the terminal into one of two mouse modes.
///
/// Reporting the mouse to the application takes click-drag selection away from the
/// terminal, and selecting text to copy it is something people need far more often than
/// they need to click a link. So the default is not to ask for the mouse at all, and to
/// turn on alternate scroll (DECSET 1007) instead: the terminal then translates wheel
/// events into arrow keys. With reporting on, clicks are seen, and links can be followed
/// -- anchors in the document too, which the terminal cannot do. Button tracking plus
/// SGR coordinates, deliberately without motion tracking.
pub fn mouse_mode(reporting: bool) -> (r: &'static str)
    ensures
        r@ == (if reporting {
            "\x1b[?1007l\x1b[?1000h\x1b[?1006h"@
        } else {
            "\x1b[?1006l\x1b[?1000l\x1b[?1007h"@
        }),
{
    if reporting {
        "\x1b[?1007l\x1b[?1000h\x1b[?1006h"
    } else {
        "\x1b[?1006l\x1b[?1000l\x1b[?1007h"
    }
}


// --- laws ------------------------------------------------------------------------------

proof fn lemma_jumps_stay(p: PagerV, backward: bool)
    requires
        p.screen@.lines.len() <= usize::MAX,
        p.window.top <= max_top_of(p.window, p.screen),
    ensures
        search_jumped(p, backward).window.top <= max_top_of(p.window, p.screen),
        search_jumped(p, backward).screen == p.screen,
        search_jumped(p, backward).window.rows == p.window.rows,
{
    reveal(search_jumped);
}

/// Whatever key is pressed, a window that is in the document stays in it: it starts no
/// further down than the last screenful.
pub proof fn keys_stay_in_the_document(p: PagerV, key: KeyPress)
    requires
        p.screen@.lines.len() <= usize::MAX,
        p.window.top <= max_top_of(p.window, p.screen),
    ensures
        after_key(p, key).0.screen == p.screen,
        after_key(p, key).0.window.rows == p.window.rows,
        after_key(p, key).0.window.top <= max_top_of(p.window, p.screen),
{
    reveal(after_key);
    if !key.release {
        let q = PagerV { message: None, ..p };
        match p.window.mode {
            Mode::Searching { backward } => {
                reveal(search_key);
                reveal(search_updated);
                reveal(search_accepted);
            },
            Mode::Panel(panel) => {
                reveal(panel_key);
                reveal(row_chosen);
            },
            Mode::Normal => {
                reveal(doing_key);
                reveal(code_copied);
                lemma_jumps_stay(q, true);
                lemma_jumps_stay(q, false);
            },
        }
    }
}

/// Letting a key go does nothing.
pub proof fn releases_do_nothing(p: PagerV, key: KeyPress)
    requires
        key.release,
    ensures
        after_key(p, key) == (p, ActionV::Nothing),
{
    reveal(after_key);
}

/// Toggling images, or the mouse, twice leaves them as they were.
pub proof fn toggling_twice(p: PagerV)
    ensures
        images_toggled(images_toggled(p)).window == p.window,
        mouse_toggled(mouse_toggled(p)).window == p.window,
{
}

/// A link that names its own scheme is never opened as a file, and a link into the
/// document never leaves it.
pub proof fn links_go_where_they_say(p: PagerV, url: Seq<char>, is_dir: bool, is_file: bool)
    ensures
        url.len() > 0 && url[0] == '#' ==> following(p, url, is_dir, is_file).1
            == ActionV::Nothing,
        !(url.len() > 0 && url[0] == '#') ==> following(p, url, is_dir, is_file).0 == p,
        text::contains(link_target_of(url), "://"@) ==> !(following(
            p,
            url,
            is_dir,
            is_file,
        ).1 matches ActionV::Open(OriginV::File(_), _)),
{
}

} // verus!
