//! What holds of every step of a session.

use crate::hosts::ListView;
use crate::session::{
    at_least_zero, changes_text, clicked_position, completes_double_click, follow, initial,
    is_inside, is_valid, next_state, outcome_of, rows, Click, Event, OutcomeView, SessionView,
    Viewport, DOUBLE_CLICK_MS,
};
use vstd::prelude::*;

verus! {

/// The distance between two positions.
pub open spec fn distance(a: int, b: int) -> int {
    if a >= b {
        a - b
    } else {
        b - a
    }
}

/// Whether a window of `rows` rows that starts at `offset` shows `selected`
/// and does not start past the last full window of a list of `len` records.
pub open spec fn shows(offset: int, selected: int, len: int, rows: int) -> bool {
    &&& 0 <= offset <= at_least_zero(len - rows)
    &&& offset <= selected < offset + rows
}

/// Scroll-follow: the window that follows the highlight shows it and starts
/// at a position of the list. It stays where it was while the highlight is
/// visible; where it moves, it moves to the nearest place that shows the
/// highlight without starting past the last full window.
pub proof fn law_window_follows(offset: int, selected: int, len: int, rows: int)
    requires
        0 <= selected < len,
        0 <= offset < len,
        rows >= 1,
    ensures
        follow(offset, selected, len, rows) <= selected < follow(offset, selected, len, rows)
            + rows,
        0 <= follow(offset, selected, len, rows) <= len - 1,
        offset <= selected < offset + rows ==> follow(offset, selected, len, rows) == offset,
        follow(offset, selected, len, rows) != offset ==> shows(
            follow(offset, selected, len, rows),
            selected,
            len,
            rows,
        ),
        forall|other: int|
            !(offset <= selected < offset + rows) && #[trigger] shows(other, selected, len, rows)
                ==> distance(follow(offset, selected, len, rows), offset) <= distance(
                other,
                offset,
            ),
{
}

/// Every step leaves a valid state, whatever the ranking for the new query
/// is.
pub proof fn law_step_keeps_valid(
    s: SessionView,
    viewport: Viewport,
    event: Event,
    reranked: Seq<ListView>,
)
    requires
        is_valid(s),
    ensures
        is_valid(next_state(s, viewport, event, reranked)),
{
}

/// After a step that moves the highlight, the highlighted record is
/// visible.
pub proof fn law_highlight_stays_visible(
    s: SessionView,
    viewport: Viewport,
    event: Event,
    reranked: Seq<ListView>,
)
    requires
        is_valid(s),
        s.ranked.len() > 0,
        event is Up || event is Down || event is JumpTop || event is JumpBottom,
    ensures
        ({
            let next = next_state(s, viewport, event, reranked);
            next.scroll_offset <= next.selected_index.unwrap() < next.scroll_offset + rows(
                viewport,
            )
        }),
{
}

/// Navigation wraps around: `Down` from the last record highlights the
/// first, and `Up` from the first highlights the last.
pub proof fn law_navigation_wraps(s: SessionView, viewport: Viewport, reranked: Seq<ListView>)
    requires
        is_valid(s),
        s.ranked.len() > 0,
    ensures
        s.selected_index == Some(s.ranked.len() - 1) ==> next_state(
            s,
            viewport,
            Event::Down,
            reranked,
        ).selected_index == Some(0int),
        s.selected_index == Some(0int) ==> next_state(
            s,
            viewport,
            Event::Up,
            reranked,
        ).selected_index == Some(s.ranked.len() - 1),
{
}

/// Navigation on an empty list changes nothing.
pub proof fn law_navigation_on_empty_list(
    s: SessionView,
    viewport: Viewport,
    event: Event,
    reranked: Seq<ListView>,
)
    requires
        is_valid(s),
        s.ranked.len() == 0,
        event is Up || event is Down || event is JumpTop || event is JumpBottom,
    ensures
        next_state(s, viewport, event, reranked) == s,
        outcome_of(s, viewport, event) is None,
{
}

/// An event that changes the text of the query puts the new ranking in
/// place and highlights its first record, or nothing where it is empty. An
/// edit event that leaves the text as it is leaves list and highlight too.
pub proof fn law_edit_resets_selection(
    s: SessionView,
    viewport: Viewport,
    event: Event,
    reranked: Seq<ListView>,
)
    requires
        is_valid(s),
        event is Insert || event is Backspace || event is CursorLeft || event is CursorRight,
    ensures
        outcome_of(s, viewport, event) is None,
        changes_text(s, event) <==> next_state(s, viewport, event, reranked).query != s.query,
        changes_text(s, event) ==> ({
            let next = next_state(s, viewport, event, reranked);
            &&& next.ranked == reranked
            &&& next.selected_index == if reranked.len() > 0 {
                Some(0int)
            } else {
                None
            }
            &&& next.scroll_offset == 0
        }),
        !changes_text(s, event) ==> ({
            let next = next_state(s, viewport, event, reranked);
            &&& next.ranked == s.ranked
            &&& next.selected_index == s.selected_index
            &&& next.scroll_offset == s.scroll_offset
        }),
{
    match event {
        Event::Insert(c) => {
            assert(s.query.insert(s.cursor, c).len() == s.query.len() + 1);
        },
        Event::Backspace => {
            if s.cursor > 0 {
                assert(s.query.remove(s.cursor - 1).len() == s.query.len() - 1);
            }
        },
        _ => {},
    }
}

/// A double-click confirms: after a click on a visible row, a second click
/// on the same cell within the double-click time ends the session with the
/// record of that row. A second click on another cell, or later than that,
/// does not end it.
pub proof fn law_double_click_confirms(
    s: SessionView,
    viewport: Viewport,
    first: Click,
    second: Click,
    reranked: Seq<ListView>,
)
    requires
        is_valid(s),
        s.ranked.len() > 0,
        is_inside(viewport, first.row),
        !completes_double_click(s, first),
    ensures
        outcome_of(s, viewport, Event::Click(first)) is None,
        ({
            let after_first = next_state(s, viewport, Event::Click(first), reranked);
            let same_cell = second.column == first.column && second.row == first.row;
            let in_time = second.at - first.at <= DOUBLE_CLICK_MS;
            &&& after_first.selected_index == Some(clicked_position(s, viewport, first.row))
            &&& same_cell && in_time ==> outcome_of(after_first, viewport, Event::Click(second))
                == Some(
                OutcomeView::Confirmed(s.ranked[clicked_position(s, viewport, first.row)]),
            )
            &&& !(same_cell && in_time) ==> outcome_of(
                after_first,
                viewport,
                Event::Click(second),
            ) is None
        }),
{
}

/// A click outside the visible rows of the list is ignored.
pub proof fn law_click_outside_is_ignored(
    s: SessionView,
    viewport: Viewport,
    click: Click,
    reranked: Seq<ListView>,
)
    requires
        !is_inside(viewport, click.row),
    ensures
        next_state(s, viewport, Event::Click(click), reranked) == s,
        outcome_of(s, viewport, Event::Click(click)) is None,
{
}

/// On an empty list `Confirm` does nothing: the session goes on in the same
/// state.
pub proof fn law_confirm_on_empty_list(s: SessionView, viewport: Viewport, reranked: Seq<ListView>)
    requires
        is_valid(s),
        s.ranked.len() == 0,
    ensures
        outcome_of(s, viewport, Event::Confirm) is None,
        next_state(s, viewport, Event::Confirm, reranked) == s,
{
}

/// On a list that is not empty `Confirm` ends the session with the
/// highlighted record.
pub proof fn law_confirm_takes_the_highlighted(s: SessionView, viewport: Viewport)
    requires
        is_valid(s),
        s.ranked.len() > 0,
    ensures
        outcome_of(s, viewport, Event::Confirm) == Some(
            OutcomeView::Confirmed(s.ranked[s.selected_index.unwrap()]),
        ),
{
}

/// The state after the characters of `text` have been typed one by one in
/// state `s`, where `rankings(n)` is the ranking for the query after the
/// first `n` of them.
pub open spec fn after_typing(
    s: SessionView,
    viewport: Viewport,
    text: Seq<char>,
    rankings: spec_fn(int) -> Seq<ListView>,
) -> SessionView
    decreases text.len(),
{
    if text.len() == 0 {
        s
    } else {
        next_state(
            after_typing(s, viewport, text.drop_last(), rankings),
            viewport,
            Event::Insert(text.last()),
            rankings(text.len() as int),
        )
    }
}

/// A query that a session starts with is a query that was typed: typing the
/// characters of a text at the start of a session leaves the text as the
/// query, the cursor behind it, the ranking for it as the list, and the
/// first record of that highlighted.
pub proof fn law_seeded_query_is_typed_query(
    records: Seq<ListView>,
    viewport: Viewport,
    text: Seq<char>,
    rankings: spec_fn(int) -> Seq<ListView>,
)
    ensures
        text.len() == 0 ==> after_typing(initial(records), viewport, text, rankings) == initial(
            records,
        ),
        text.len() > 0 ==> after_typing(initial(records), viewport, text, rankings) == (
        SessionView {
            query: text,
            cursor: text.len() as int,
            ranked: rankings(text.len() as int),
            selected_index: if rankings(text.len() as int).len() > 0 {
                Some(0int)
            } else {
                None
            },
            scroll_offset: 0,
            last_click: None,
        }),
    decreases text.len(),
{
    if text.len() > 0 {
        let front = text.drop_last();
        law_seeded_query_is_typed_query(records, viewport, front, rankings);
        let before = after_typing(initial(records), viewport, front, rankings);
        assert(before.query == front);
        assert(before.cursor == front.len());
        assert(front.insert(front.len() as int, text.last()) =~= text);
    }
}

} // verus!
