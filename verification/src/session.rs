//! The selection controller: one interactive session as a state machine.
//!
//! The state holds the query and its cursor, the ranked list, the
//! highlighted position, the first visible row and the latest click. An
//! event changes the state, or ends the session with an outcome. The caller
//! draws the state, waits for input and hands each event to `step`.

use crate::hosts::{views, List, ListView};
use crate::keymap::{persian_to_qwerty, remapped};
use crate::ranking::{is_ranking, rank};
use crate::text::{chars_of, string_of};
use vstd::prelude::*;

verus! {

/// The longest time, in milliseconds, between the two clicks of a
/// double-click.
pub const DOUBLE_CLICK_MS: u64 = 300;

/// What the renderer reports of the list: how many rows of it are visible,
/// and how many screen rows stand above its first row.
#[derive(Clone, Copy, Debug, PartialEq, Eq)]
pub struct Viewport {
    pub height: u16,
    pub header: u16,
}

/// A click: when it came, in milliseconds of a clock that does not run
/// backwards, and the screen cell that it hit.
#[derive(Clone, Copy, Debug, PartialEq, Eq)]
pub struct Click {
    pub at: u64,
    pub column: u16,
    pub row: u16,
}

/// What the controller reacts to.
#[derive(Clone, Copy, Debug, PartialEq, Eq)]
pub enum Event {
    /// Give up: an interrupt key, Escape, or a signal from outside.
    Cancel,
    /// Take the highlighted record.
    Confirm,
    /// Highlight the record above; from the first one, the last.
    Up,
    /// Highlight the record below; from the last one, the first.
    Down,
    /// Highlight the first visible record.
    JumpTop,
    /// Highlight the last visible record.
    JumpBottom,
    /// Put a character into the query at the cursor.
    Insert(char),
    /// Delete the character before the cursor.
    Backspace,
    /// Move the cursor one character to the left.
    CursorLeft,
    /// Move the cursor one character to the right.
    CursorRight,
    /// A press of a mouse button.
    Click(Click),
}

/// How a session ends.
#[derive(Debug, PartialEq)]
pub enum Outcome {
    Confirmed(List),
    Cancelled,
}

/// How a session ends, the record as plain values.
pub enum OutcomeView {
    Confirmed(ListView),
    Cancelled,
}

impl View for Outcome {
    type V = OutcomeView;

    open spec fn view(&self) -> OutcomeView {
        match self {
            Outcome::Confirmed(record) => OutcomeView::Confirmed(record@),
            Outcome::Cancelled => OutcomeView::Cancelled,
        }
    }
}

/// The outcome of a step, if it has one, as plain values.
pub open spec fn outcome_view(outcome: Option<Outcome>) -> Option<OutcomeView> {
    match outcome {
        Some(o) => Some(o@),
        None => None,
    }
}

/// The state of a session as plain values.
pub struct SessionView {
    /// The text typed so far.
    pub query: Seq<char>,
    /// The cursor, as the number of characters of the query before it.
    pub cursor: int,
    /// The records that the query retains, best first.
    pub ranked: Seq<ListView>,
    /// The highlighted position in `ranked`.
    pub selected_index: Option<int>,
    /// The position in `ranked` of the first visible row.
    pub scroll_offset: int,
    /// The latest click that was taken.
    pub last_click: Option<Click>,
}

/// `a`, or `b` where that is less.
pub open spec fn least(a: int, b: int) -> int {
    if a <= b {
        a
    } else {
        b
    }
}

/// `a`, or zero where `a` is negative.
pub open spec fn at_least_zero(a: int) -> int {
    if a >= 0 {
        a
    } else {
        0
    }
}

/// What every state of a session satisfies: the cursor stands in the query;
/// a position is highlighted exactly when the list is not empty, and it is a
/// position of the list; the first visible row is a position of the list, or
/// zero where the list is empty.
pub open spec fn is_valid(s: SessionView) -> bool {
    &&& 0 <= s.cursor <= s.query.len()
    &&& match s.selected_index {
        Some(i) => 0 <= i < s.ranked.len(),
        None => s.ranked.len() == 0,
    }
    &&& 0 <= s.scroll_offset <= at_least_zero(s.ranked.len() - 1)
}

/// The state in which a session starts: nothing typed, every record listed
/// in the order given, the first one highlighted.
pub open spec fn initial(records: Seq<ListView>) -> SessionView {
    SessionView {
        query: Seq::empty(),
        cursor: 0,
        ranked: records,
        selected_index: if records.len() > 0 {
            Some(0)
        } else {
            None
        },
        scroll_offset: 0,
        last_click: None,
    }
}

/// The number of rows that scrolling reckons with in a viewport of the
/// height `height`: the height, and one row where the viewport has none.
pub open spec fn rows_of(height: u16) -> int {
    if height == 0 {
        1
    } else {
        height as int
    }
}

/// The number of rows that scrolling reckons with in `viewport`.
pub open spec fn rows(viewport: Viewport) -> int {
    rows_of(viewport.height)
}

/// Whether the screen row `row` is one of the visible rows of the list.
pub open spec fn is_inside(viewport: Viewport, row: u16) -> bool {
    viewport.header <= row && row - viewport.header < viewport.height
}

/// Where the first visible row stands once `selected` is highlighted.
///
/// While the highlighted position is visible the window stays. Otherwise it
/// moves by the least amount that shows the position: up to the position
/// itself, though not past the last full window, or down until the position
/// is the last visible row.
pub open spec fn follow(offset: int, selected: int, len: int, rows: int) -> int {
    if selected < offset {
        least(selected, at_least_zero(len - rows))
    } else if selected >= offset + rows {
        selected - rows + 1
    } else {
        offset
    }
}

/// `s` with `selected` highlighted and the window following it.
pub open spec fn highlight(s: SessionView, viewport: Viewport, selected: int) -> SessionView {
    SessionView {
        selected_index: Some(selected),
        scroll_offset: follow(s.scroll_offset, selected, s.ranked.len() as int, rows(viewport)),
        ..s
    }
}

/// The position below `i` in a list of `len` records: the first one after
/// the last.
pub open spec fn below(i: int, len: int) -> int {
    if i + 1 >= len {
        0
    } else {
        i + 1
    }
}

/// The position above `i` in a list of `len` records: the last one before
/// the first.
pub open spec fn above(i: int, len: int) -> int {
    if i <= 0 {
        len - 1
    } else {
        i - 1
    }
}

/// The position that a click on the screen row `row` means: as many rows
/// below the first visible one as `row` is below the first row of the list,
/// and the last record where the list ends before that.
pub open spec fn clicked_position(s: SessionView, viewport: Viewport, row: u16) -> int {
    least(s.scroll_offset + (row - viewport.header), s.ranked.len() - 1)
}

/// Whether `click` is the second click of a double-click: the latest click
/// hit the same cell, no more than `DOUBLE_CLICK_MS` before.
pub open spec fn completes_double_click(s: SessionView, click: Click) -> bool {
    match s.last_click {
        Some(last) => last.column == click.column && last.row == click.row && click.at - last.at
            <= DOUBLE_CLICK_MS,
        None => false,
    }
}

/// Whether `event` changes the text of the query in state `s`.
pub open spec fn changes_text(s: SessionView, event: Event) -> bool {
    match event {
        Event::Insert(_) => true,
        Event::Backspace => s.cursor > 0,
        _ => false,
    }
}

/// The query and the cursor after `event`.
pub open spec fn edited(s: SessionView, event: Event) -> (Seq<char>, int) {
    match event {
        Event::Insert(c) => (s.query.insert(s.cursor, c), s.cursor + 1),
        Event::Backspace => if s.cursor > 0 {
            (s.query.remove(s.cursor - 1), s.cursor - 1)
        } else {
            (s.query, s.cursor)
        },
        Event::CursorLeft => (s.query, at_least_zero(s.cursor - 1)),
        Event::CursorRight => (s.query, least(s.cursor + 1, s.query.len() as int)),
        _ => (s.query, s.cursor),
    }
}

/// The state after `event` in state `s`, where `reranked` is the ranking
/// for the query after the event. Only an event that changes the text of the
/// query reads `reranked`.
pub open spec fn next_state(
    s: SessionView,
    viewport: Viewport,
    event: Event,
    reranked: Seq<ListView>,
) -> SessionView {
    let len = s.ranked.len() as int;
    match event {
        Event::Cancel | Event::Confirm => s,
        Event::Up => match s.selected_index {
            Some(i) => highlight(s, viewport, above(i, len)),
            None => s,
        },
        Event::Down => match s.selected_index {
            Some(i) => highlight(s, viewport, below(i, len)),
            None => s,
        },
        Event::JumpTop => if len > 0 {
            highlight(s, viewport, least(s.scroll_offset, len - 1))
        } else {
            s
        },
        Event::JumpBottom => if len > 0 {
            highlight(s, viewport, least(s.scroll_offset + rows(viewport) - 1, len - 1))
        } else {
            s
        },
        Event::Insert(_) | Event::Backspace | Event::CursorLeft | Event::CursorRight => {
            if changes_text(s, event) {
                SessionView {
                    query: edited(s, event).0,
                    cursor: edited(s, event).1,
                    ranked: reranked,
                    selected_index: if reranked.len() > 0 {
                        Some(0)
                    } else {
                        None
                    },
                    scroll_offset: 0,
                    last_click: s.last_click,
                }
            } else {
                SessionView { cursor: edited(s, event).1, ..s }
            }
        },
        Event::Click(click) => {
            if !is_inside(viewport, click.row) {
                s
            } else if len == 0 {
                SessionView { last_click: Some(click), ..s }
            } else {
                let target = highlight(s, viewport, clicked_position(s, viewport, click.row));
                if completes_double_click(s, click) {
                    target
                } else {
                    SessionView { last_click: Some(click), ..target }
                }
            }
        },
    }
}

/// The outcome of `event` in state `s`, if it ends the session.
pub open spec fn outcome_of(s: SessionView, viewport: Viewport, event: Event) -> Option<
    OutcomeView,
> {
    match event {
        Event::Cancel => Some(OutcomeView::Cancelled),
        Event::Confirm => match s.selected_index {
            Some(i) => Some(OutcomeView::Confirmed(s.ranked[i])),
            None => None,
        },
        Event::Click(click) => {
            if is_inside(viewport, click.row) && s.ranked.len() > 0 && completes_double_click(
                s,
                click,
            ) {
                Some(OutcomeView::Confirmed(s.ranked[clicked_position(s, viewport, click.row)]))
            } else {
                None
            }
        },
        _ => None,
    }
}

/// The state of one interactive session.
pub struct SessionState {
    query: Vec<char>,
    cursor: usize,
    ranked: Vec<List>,
    selected_index: Option<usize>,
    scroll_offset: usize,
    last_click: Option<Click>,
}

impl View for SessionState {
    type V = SessionView;

    closed spec fn view(&self) -> SessionView {
        SessionView {
            query: self.query@,
            cursor: self.cursor as int,
            ranked: views(self.ranked@),
            selected_index: match self.selected_index {
                Some(i) => Some(i as int),
                None => None,
            },
            scroll_offset: self.scroll_offset as int,
            last_click: self.last_click,
        }
    }
}

/// The first visible row once `selected` is highlighted.
fn follow_selection(offset: usize, selected: usize, len: usize, height: u16) -> (r: usize)
    requires
        selected < len,
        offset < len,
    ensures
        r == follow(offset as int, selected as int, len as int, rows_of(height)),
        r <= selected,
{
    let rows: usize = if height == 0 {
        1
    } else {
        height as usize
    };
    if selected < offset {
        let bound: usize = if len >= rows {
            len - rows
        } else {
            0
        };
        if selected <= bound {
            selected
        } else {
            bound
        }
    } else if selected - offset >= rows {
        selected - rows + 1
    } else {
        offset
    }
}

impl SessionState {
    #[verifier::type_invariant]
    closed spec fn well_formed(self) -> bool {
        is_valid(self@)
    }

    /// The state in which a session starts: nothing typed, every record of
    /// `records` listed in the order given, the first one highlighted.
    pub fn new(records: &Vec<List>) -> (state: SessionState)
        ensures
            state@ == initial(views(records@)),
            is_valid(state@),
    {
        let ranked = records.clone();
        proof {
            assert(views(ranked@) =~= views(records@));
        }
        SessionState {
            query: Vec::new(),
            cursor: 0,
            ranked,
            selected_index: if records.len() > 0 {
                Some(0)
            } else {
                None
            },
            scroll_offset: 0,
            last_click: None,
        }
    }

    /// The state of a session that starts with `query` already typed: the
    /// cursor stands behind it, and the list is the ranking of `records` for
    /// it. With an empty `query` this is the state that `new` gives.
    pub fn with_query(records: &Vec<List>, query: &str) -> (state: SessionState)
        ensures
            is_valid(state@),
            query@.len() == 0 ==> state@ == initial(views(records@)),
            query@.len() > 0 ==> is_ranking(
                views(records@),
                remapped(query@),
                state@.ranked,
            ) && state@ == (SessionView {
                query: query@,
                cursor: query@.len() as int,
                ranked: state@.ranked,
                selected_index: if state@.ranked.len() > 0 {
                    Some(0)
                } else {
                    None
                },
                scroll_offset: 0,
                last_click: None,
            }),
    {
        let typed = chars_of(query);
        if typed.len() == 0 {
            return SessionState::new(records);
        }
        let ranked = rank(records, persian_to_qwerty(query).as_str());
        let cursor = typed.len();
        SessionState {
            query: typed,
            cursor,
            selected_index: if ranked.len() > 0 {
                Some(0)
            } else {
                None
            },
            ranked,
            scroll_offset: 0,
            last_click: None,
        }
    }

    /// The text typed so far.
    pub fn query(&self) -> (text: String)
        ensures
            text@ == self@.query,
    {
        string_of(&self.query)
    }

    /// The cursor, as the number of characters of the query before it.
    pub fn cursor(&self) -> (cursor: usize)
        ensures
            cursor == self@.cursor,
    {
        self.cursor
    }

    /// The records that the query retains, best first.
    pub fn ranked(&self) -> (ranked: &Vec<List>)
        ensures
            views(ranked@) == self@.ranked,
    {
        &self.ranked
    }

    /// The highlighted position in the ranked list.
    pub fn selected_index(&self) -> (selected: Option<usize>)
        ensures
            match selected {
                Some(i) => self@.selected_index == Some(i as int),
                None => self@.selected_index.is_none(),
            },
    {
        self.selected_index
    }

    /// The position in the ranked list of the first visible row.
    pub fn scroll_offset(&self) -> (offset: usize)
        ensures
            offset == self@.scroll_offset,
    {
        self.scroll_offset
    }

    /// The latest click that was taken.
    pub fn last_click(&self) -> (click: Option<Click>)
        ensures
            click == self@.last_click,
    {
        self.last_click
    }

    /// This state with `selected` highlighted and the window following it.
    fn highlighted(self, viewport: Viewport, selected: usize) -> (state: SessionState)
        requires
            selected < self@.ranked.len(),
        ensures
            state@ == highlight(self@, viewport, selected as int),
    {
        proof {
            use_type_invariant(&self);
        }
        let offset = follow_selection(
            self.scroll_offset,
            selected,
            self.ranked.len(),
            viewport.height,
        );
        SessionState {
            query: self.query,
            cursor: self.cursor,
            ranked: self.ranked,
            selected_index: Some(selected),
            scroll_offset: offset,
            last_click: self.last_click,
        }
    }

    /// This state with the cursor at `cursor`.
    fn with_cursor(self, cursor: usize) -> (state: SessionState)
        requires
            cursor <= self@.query.len(),
        ensures
            state@ == (SessionView { cursor: cursor as int, ..self@ }),
    {
        proof {
            use_type_invariant(&self);
        }
        SessionState {
            query: self.query,
            cursor,
            ranked: self.ranked,
            selected_index: self.selected_index,
            scroll_offset: self.scroll_offset,
            last_click: self.last_click,
        }
    }

    /// This state with `click` as the latest click.
    fn with_click(self, click: Click) -> (state: SessionState)
        ensures
            state@ == (SessionView { last_click: Some(click), ..self@ }),
    {
        proof {
            use_type_invariant(&self);
        }
        SessionState {
            query: self.query,
            cursor: self.cursor,
            ranked: self.ranked,
            selected_index: self.selected_index,
            scroll_offset: self.scroll_offset,
            last_click: Some(click),
        }
    }

    /// The state once the query has become `query`: the list is ranked
    /// anew against `records`, and its first record is highlighted.
    fn requeried(self, records: &Vec<List>, query: Vec<char>, cursor: usize) -> (state:
        SessionState)
        requires
            cursor <= query@.len(),
        ensures
            is_ranking(views(records@), remapped(query@), state@.ranked),
            state@ == (SessionView {
                query: query@,
                cursor: cursor as int,
                ranked: state@.ranked,
                selected_index: if state@.ranked.len() > 0 {
                    Some(0)
                } else {
                    None
                },
                scroll_offset: 0,
                last_click: self@.last_click,
            }),
    {
        let search = persian_to_qwerty(string_of(&query).as_str());
        let ranked = rank(records, search.as_str());
        SessionState {
            query,
            cursor,
            selected_index: if ranked.len() > 0 {
                Some(0)
            } else {
                None
            },
            ranked,
            scroll_offset: 0,
            last_click: self.last_click,
        }
    }

    /// Whether `click` is the second click of a double-click.
    fn is_double_click(&self, click: Click) -> (b: bool)
        ensures
            b == completes_double_click(self@, click),
    {
        match self.last_click {
            Some(last) => last.column == click.column && last.row == click.row && (click.at
                <= last.at || click.at - last.at <= DOUBLE_CLICK_MS),
            None => false,
        }
    }

    /// The position that lies `down` rows below the first visible row, or
    /// the last position where the list ends before that.
    fn position_below_top(&self, down: usize) -> (position: usize)
        requires
            self@.ranked.len() > 0,
        ensures
            position == least(self@.scroll_offset + down, self@.ranked.len() - 1),
            position < self@.ranked.len(),
    {
        proof {
            use_type_invariant(self);
        }
        let last = self.ranked.len() - 1;
        if last - self.scroll_offset < down {
            last
        } else {
            self.scroll_offset + down
        }
    }

    /// Takes one event.
    ///
    /// Gives the state after the event and, where the event ends the
    /// session, the outcome. `records` is the full set of records, against
    /// which the list is ranked anew whenever the text of the query changes;
    /// the query is read through the keyboard remap for that. `viewport` is
    /// what the renderer last reported.
    ///
    /// - `Cancel` ends the session as cancelled.
    /// - `Confirm` ends it with the highlighted record; on an empty list it
    ///   does nothing.
    /// - `Up` and `Down` move the highlight by one, from either end of the
    ///   list to the other; `JumpTop` and `JumpBottom` move it to the first
    ///   and the last visible record. On an empty list they do nothing.
    /// - `Insert` and `Backspace` edit the query at the cursor, and
    ///   `CursorLeft` and `CursorRight` move the cursor. When the text
    ///   changes, the list is ranked anew, its first record is highlighted
    ///   and the window returns to the top.
    /// - `Click` on a visible row highlights the record of that row, the
    ///   last record where the row lies below the list. A click that
    ///   completes a double-click ends the session with that record; any
    ///   other is kept as the latest click. A click elsewhere is ignored.
    ///
    /// Whenever the highlight moves out of the window, the window follows.
    pub fn step(self, records: &Vec<List>, viewport: Viewport, event: Event) -> (r: (
        SessionState,
        Option<Outcome>,
    ))
        ensures
            is_valid(r.0@),
            changes_text(self@, event) ==> is_ranking(
                views(records@),
                remapped(r.0@.query),
                r.0@.ranked,
            ),
            r.0@ == next_state(self@, viewport, event, r.0@.ranked),
            outcome_view(r.1) == outcome_of(self@, viewport, event),
    {
        proof {
            use_type_invariant(&self);
        }
        let len = self.ranked.len();
        let (state, outcome) = match event {
            Event::Cancel => (self, Some(Outcome::Cancelled)),
            Event::Confirm => {
                let outcome = match self.selected_index {
                    Some(i) => Some(Outcome::Confirmed(self.ranked[i].clone())),
                    None => None,
                };
                (self, outcome)
            },
            Event::Up => match self.selected_index {
                Some(i) => {
                    let target = if i == 0 {
                        len - 1
                    } else {
                        i - 1
                    };
                    (self.highlighted(viewport, target), None)
                },
                None => (self, None),
            },
            Event::Down => match self.selected_index {
                Some(i) => {
                    let target = if i + 1 >= len {
                        0
                    } else {
                        i + 1
                    };
                    (self.highlighted(viewport, target), None)
                },
                None => (self, None),
            },
            Event::JumpTop => {
                if len > 0 {
                    let target = self.position_below_top(0);
                    (self.highlighted(viewport, target), None)
                } else {
                    (self, None)
                }
            },
            Event::JumpBottom => {
                if len > 0 {
                    let down: usize = if viewport.height == 0 {
                        0
                    } else {
                        (viewport.height - 1) as usize
                    };
                    let target = self.position_below_top(down);
                    (self.highlighted(viewport, target), None)
                } else {
                    (self, None)
                }
            },
            Event::Insert(c) => {
                let mut query = self.query.clone();
                query.insert(self.cursor, c);
                let cursor = if self.cursor < query.len() {
                    self.cursor + 1
                } else {
                    query.len()
                };
                (self.requeried(records, query, cursor), None)
            },
            Event::Backspace => {
                if self.cursor > 0 {
                    let mut query = self.query.clone();
                    query.remove(self.cursor - 1);
                    let cursor = self.cursor - 1;
                    (self.requeried(records, query, cursor), None)
                } else {
                    (self, None)
                }
            },
            Event::CursorLeft => {
                let cursor = if self.cursor > 0 {
                    self.cursor - 1
                } else {
                    0
                };
                (self.with_cursor(cursor), None)
            },
            Event::CursorRight => {
                let cursor = if self.cursor < self.query.len() {
                    self.cursor + 1
                } else {
                    self.query.len()
                };
                (self.with_cursor(cursor), None)
            },
            Event::Click(click) => {
                if !(viewport.header <= click.row && click.row - viewport.header
                    < viewport.height) {
                    (self, None)
                } else if len == 0 {
                    (self.with_click(click), None)
                } else {
                    let double = self.is_double_click(click);
                    let target = self.position_below_top((click.row - viewport.header) as usize);
                    if double {
                        let record = self.ranked[target].clone();
                        (self.highlighted(viewport, target), Some(Outcome::Confirmed(record)))
                    } else {
                        (self.highlighted(viewport, target).with_click(click), None)
                    }
                }
            },
        };
        proof {
            use_type_invariant(&state);
        }
        (state, outcome)
    }
}

} // verus!
