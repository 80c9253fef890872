use gossh::hosts::List;
use gossh::session::{Click, Event, Outcome, SessionState, Viewport, DOUBLE_CLICK_MS};

const VIEW: Viewport = Viewport { height: 3, header: 1 };
const TALL: Viewport = Viewport { height: 50, header: 1 };

fn record(alias: &str, display_name: &str) -> List {
    List {
        score: 0,
        hostname: format!("{}.example.org", display_name),
        alias: alias.to_string(),
        display_name: display_name.to_string(),
    }
}

fn fleet() -> Vec<List> {
    vec![
        record("a", "alpha1"),
        record("b", "beta2"),
        record("c", "gamma3"),
        record("d", "delta4"),
        record("e", "alpha5"),
        record("f", "beta6"),
        record("g", "gamma7"),
    ]
}

fn run(state: SessionState, records: &Vec<List>, viewport: Viewport, events: &[Event]) -> SessionState {
    let mut state = state;
    for event in events {
        let (next, outcome) = state.step(records, viewport, *event);
        assert_eq!(outcome, None);
        state = next;
    }
    state
}

fn click(at: u64, column: u16, row: u16) -> Event {
    Event::Click(Click { at, column, row })
}

fn aliases(state: &SessionState) -> Vec<String> {
    state.ranked().iter().map(|r| r.alias.clone()).collect()
}

#[test]
fn session_starts_with_every_record_and_the_first_highlighted() {
    let records = fleet();
    let state = SessionState::new(&records);
    assert_eq!(state.query(), "");
    assert_eq!(state.cursor(), 0);
    assert_eq!(state.ranked(), &records);
    assert_eq!(state.selected_index(), Some(0));
    assert_eq!(state.scroll_offset(), 0);
    assert_eq!(state.last_click(), None);
}

#[test]
fn session_over_nothing_highlights_nothing() {
    let state = SessionState::new(&Vec::new());
    assert!(state.ranked().is_empty());
    assert_eq!(state.selected_index(), None);
    assert_eq!(state.scroll_offset(), 0);
}

#[test]
fn session_with_a_query_is_ranked_for_it() {
    let records = fleet();
    let state = SessionState::with_query(&records, "alpha");
    assert_eq!(state.query(), "alpha");
    assert_eq!(state.cursor(), 5);
    assert_eq!(aliases(&state), vec!["a", "e"]);
    assert_eq!(state.selected_index(), Some(0));
    assert_eq!(state.scroll_offset(), 0);
    let typed = run(
        SessionState::new(&records),
        &records,
        VIEW,
        &[
            Event::Insert('a'),
            Event::Insert('l'),
            Event::Insert('p'),
            Event::Insert('h'),
            Event::Insert('a'),
        ],
    );
    assert_eq!(typed.query(), state.query());
    assert_eq!(typed.cursor(), state.cursor());
    assert_eq!(typed.ranked(), state.ranked());
    assert_eq!(typed.selected_index(), state.selected_index());
    let none = SessionState::with_query(&records, "zzz");
    assert!(none.ranked().is_empty());
    assert_eq!(none.selected_index(), None);
    let untouched = SessionState::with_query(&records, "");
    assert_eq!(untouched.ranked(), &records);
    assert_eq!(untouched.cursor(), 0);
}

#[test]
fn cancel_ends_the_session() {
    let records = fleet();
    let (state, outcome) = SessionState::new(&records).step(&records, VIEW, Event::Cancel);
    assert_eq!(outcome, Some(Outcome::Cancelled));
    assert_eq!(state.selected_index(), Some(0));
    let (_, outcome) = SessionState::new(&Vec::new()).step(&Vec::new(), VIEW, Event::Cancel);
    assert_eq!(outcome, Some(Outcome::Cancelled));
}

#[test]
fn confirm_takes_the_highlighted_record() {
    let records = fleet();
    let state = run(SessionState::new(&records), &records, VIEW, &[Event::Down, Event::Down]);
    let (_, outcome) = state.step(&records, VIEW, Event::Confirm);
    assert_eq!(outcome, Some(Outcome::Confirmed(records[2].clone())));
}

#[test]
fn confirm_on_empty_list_does_nothing() {
    let records = fleet();
    let state = SessionState::with_query(&records, "zzz");
    let (state, outcome) = state.step(&records, VIEW, Event::Confirm);
    assert_eq!(outcome, None);
    assert_eq!(state.query(), "zzz");
    assert_eq!(state.cursor(), 3);
    assert!(state.ranked().is_empty());
    assert_eq!(state.selected_index(), None);
    assert_eq!(state.scroll_offset(), 0);
    let (state, outcome) = SessionState::new(&Vec::new()).step(&Vec::new(), VIEW, Event::Confirm);
    assert_eq!(outcome, None);
    assert_eq!(state.selected_index(), None);
}

#[test]
fn down_from_the_last_wraps_to_the_first() {
    let records = fleet();
    let state = run(SessionState::new(&records), &records, TALL, &[Event::Down; 6]);
    assert_eq!(state.selected_index(), Some(6));
    let state = run(state, &records, TALL, &[Event::Down]);
    assert_eq!(state.selected_index(), Some(0));
}

#[test]
fn up_from_the_first_wraps_to_the_last() {
    let records = fleet();
    let state = run(SessionState::new(&records), &records, TALL, &[Event::Up]);
    assert_eq!(state.selected_index(), Some(6));
    let state = run(state, &records, TALL, &[Event::Up]);
    assert_eq!(state.selected_index(), Some(5));
}

#[test]
fn single_record_wraps_onto_itself() {
    let records = vec![record("only", "one")];
    let state = run(SessionState::new(&records), &records, VIEW, &[Event::Down]);
    assert_eq!(state.selected_index(), Some(0));
    let state = run(state, &records, VIEW, &[Event::Up]);
    assert_eq!(state.selected_index(), Some(0));
}

#[test]
fn navigation_on_empty_list_does_nothing() {
    let records: Vec<List> = Vec::new();
    let state = run(
        SessionState::new(&records),
        &records,
        VIEW,
        &[Event::Down, Event::Up, Event::JumpTop, Event::JumpBottom],
    );
    assert_eq!(state.selected_index(), None);
    assert_eq!(state.scroll_offset(), 0);
}

#[test]
fn window_follows_the_highlight() {
    let records = fleet();
    let mut state = SessionState::new(&records);
    let mut seen = Vec::new();
    for _ in 0..7 {
        state = run(state, &records, VIEW, &[Event::Down]);
        seen.push((state.selected_index().unwrap(), state.scroll_offset()));
    }
    assert_eq!(seen, vec![(1, 0), (2, 0), (3, 1), (4, 2), (5, 3), (6, 4), (0, 0)]);
    let state = run(state, &records, VIEW, &[Event::Up]);
    assert_eq!((state.selected_index(), state.scroll_offset()), (Some(6), 4));
    let mut seen = Vec::new();
    let mut state = state;
    for _ in 0..4 {
        state = run(state, &records, VIEW, &[Event::Up]);
        seen.push((state.selected_index().unwrap(), state.scroll_offset()));
    }
    assert_eq!(seen, vec![(5, 4), (4, 4), (3, 3), (2, 2)]);
}

#[test]
fn window_does_not_start_past_the_last_full_window() {
    let records = fleet();
    let one_row = Viewport { height: 1, header: 1 };
    let state = run(SessionState::new(&records), &records, one_row, &[Event::Up]);
    assert_eq!((state.selected_index(), state.scroll_offset()), (Some(6), 6));
    let state = run(state, &records, VIEW, &[Event::Up]);
    assert_eq!((state.selected_index(), state.scroll_offset()), (Some(5), 4));
    let state = run(SessionState::new(&records), &records, one_row, &[Event::Up]);
    let state = run(state, &records, TALL, &[Event::Up]);
    assert_eq!((state.selected_index(), state.scroll_offset()), (Some(5), 0));
}

#[test]
fn viewport_without_rows_scrolls_as_one_row() {
    let records = fleet();
    let none = Viewport { height: 0, header: 1 };
    let state = run(SessionState::new(&records), &records, none, &[Event::Down, Event::Down]);
    assert_eq!((state.selected_index(), state.scroll_offset()), (Some(2), 2));
    let state = run(state, &records, none, &[Event::JumpBottom]);
    assert_eq!((state.selected_index(), state.scroll_offset()), (Some(2), 2));
    let state = run(state, &records, none, &[click(0, 0, 1)]);
    assert_eq!(state.selected_index(), Some(2));
    assert_eq!(state.last_click(), None);
}

#[test]
fn jumps_go_to_the_ends_of_the_window() {
    let records = fleet();
    let state = run(SessionState::new(&records), &records, VIEW, &[Event::Down; 4]);
    assert_eq!((state.selected_index(), state.scroll_offset()), (Some(4), 2));
    let state = run(state, &records, VIEW, &[Event::JumpTop]);
    assert_eq!((state.selected_index(), state.scroll_offset()), (Some(2), 2));
    let state = run(state, &records, VIEW, &[Event::JumpBottom]);
    assert_eq!((state.selected_index(), state.scroll_offset()), (Some(4), 2));
    let state = run(state, &records, TALL, &[Event::JumpBottom]);
    assert_eq!((state.selected_index(), state.scroll_offset()), (Some(6), 2));
    let state = run(state, &records, TALL, &[Event::JumpTop]);
    assert_eq!((state.selected_index(), state.scroll_offset()), (Some(2), 2));
    assert_eq!(state.query(), "");
    assert_eq!(state.ranked(), &records);
}

#[test]
fn typing_ranks_anew_and_highlights_the_first() {
    let records = fleet();
    let state = run(SessionState::new(&records), &records, VIEW, &[Event::Down; 5]);
    assert_eq!((state.selected_index(), state.scroll_offset()), (Some(5), 3));
    let state = run(state, &records, VIEW, &[Event::Insert('g')]);
    assert_eq!(state.query(), "g");
    assert_eq!(state.cursor(), 1);
    assert_eq!(aliases(&state), vec!["c", "g"]);
    assert_eq!((state.selected_index(), state.scroll_offset()), (Some(0), 0));
    let state = run(state, &records, VIEW, &[Event::Down, Event::Insert('7')]);
    assert_eq!(state.query(), "g7");
    assert_eq!(aliases(&state), vec!["g"]);
    assert_eq!(state.selected_index(), Some(0));
    assert_eq!(state.ranked()[0].score, strsim::jaro_winkler("g7", "gamma7").to_bits());
    let state = run(state, &records, VIEW, &[Event::Insert('x')]);
    assert!(state.ranked().is_empty());
    assert_eq!(state.selected_index(), None);
    assert_eq!(state.scroll_offset(), 0);
}

#[test]
fn ranking_is_against_all_records_not_the_last_list() {
    let records = fleet();
    let state = run(
        SessionState::new(&records),
        &records,
        VIEW,
        &[Event::Insert('x'), Event::Backspace, Event::Insert('b')],
    );
    assert_eq!(state.query(), "b");
    assert_eq!(aliases(&state), vec!["b", "f"]);
    let state = run(state, &records, VIEW, &[Event::Backspace]);
    assert_eq!(state.query(), "");
    assert_eq!(state.ranked().len(), 7);
    assert_eq!(state.selected_index(), Some(0));
}

#[test]
fn editing_happens_at_the_cursor() {
    let records = fleet();
    let state = run(
        SessionState::new(&records),
        &records,
        VIEW,
        &[
            Event::Insert('a'),
            Event::Insert('c'),
            Event::CursorLeft,
            Event::Insert('b'),
        ],
    );
    assert_eq!(state.query(), "abc");
    assert_eq!(state.cursor(), 2);
    let state = run(state, &records, VIEW, &[Event::CursorLeft, Event::Backspace]);
    assert_eq!(state.query(), "bc");
    assert_eq!(state.cursor(), 0);
    let state = run(state, &records, VIEW, &[Event::CursorRight, Event::CursorRight, Event::Backspace]);
    assert_eq!(state.query(), "b");
    assert_eq!(state.cursor(), 1);
}

#[test]
fn cursor_stays_within_the_query() {
    let records = fleet();
    let state = run(
        SessionState::with_query(&records, "ab"),
        &records,
        VIEW,
        &[Event::CursorRight, Event::CursorRight],
    );
    assert_eq!(state.cursor(), 2);
    let state = run(state, &records, VIEW, &[Event::CursorLeft; 5]);
    assert_eq!(state.cursor(), 0);
    assert_eq!(state.query(), "ab");
}

#[test]
fn moving_the_cursor_keeps_list_and_highlight() {
    let records = fleet();
    let state = run(
        SessionState::with_query(&records, "a"),
        &records,
        VIEW,
        &[Event::Down, Event::Down, Event::Down],
    );
    let before = (aliases(&state), state.selected_index(), state.scroll_offset());
    let state = run(state, &records, VIEW, &[Event::CursorLeft, Event::CursorRight, Event::CursorLeft]);
    assert_eq!((aliases(&state), state.selected_index(), state.scroll_offset()), before);
}

#[test]
fn backspace_at_the_start_changes_nothing() {
    let records = fleet();
    let state = run(
        SessionState::with_query(&records, "a"),
        &records,
        VIEW,
        &[Event::Down, Event::CursorLeft, Event::Backspace],
    );
    assert_eq!(state.query(), "a");
    assert_eq!(state.cursor(), 0);
    assert_eq!(state.selected_index(), Some(1));
    let state = run(SessionState::new(&records), &records, VIEW, &[Event::Down, Event::Backspace]);
    assert_eq!(state.selected_index(), Some(1));
}

#[test]
fn query_is_read_through_the_keyboard_remap() {
    let records = fleet();
    let state = run(
        SessionState::new(&records),
        &records,
        VIEW,
        &[Event::Insert('\u{644}'), Event::Insert('\u{6f7}')],
    );
    assert_eq!(state.query(), "\u{644}\u{6f7}");
    assert_eq!(state.cursor(), 2);
    assert_eq!(aliases(&state), vec!["g"]);
    assert_eq!(state.ranked()[0].score, strsim::jaro_winkler("g7", "gamma7").to_bits());
}

#[test]
fn click_highlights_the_record_of_the_row() {
    let records = fleet();
    let state = run(SessionState::new(&records), &records, VIEW, &[click(10, 4, 2)]);
    assert_eq!(state.selected_index(), Some(1));
    assert_eq!(state.last_click(), Some(Click { at: 10, column: 4, row: 2 }));
    let state = run(state, &records, VIEW, &[Event::Down; 3]);
    assert_eq!((state.selected_index(), state.scroll_offset()), (Some(4), 2));
    let state = run(state, &records, VIEW, &[click(5000, 0, 1)]);
    assert_eq!((state.selected_index(), state.scroll_offset()), (Some(2), 2));
    let state = run(state, &records, VIEW, &[click(9000, 0, 3)]);
    assert_eq!((state.selected_index(), state.scroll_offset()), (Some(4), 2));
}

#[test]
fn click_below_the_list_highlights_the_last_record() {
    let records = vec![record("a", "one"), record("b", "two")];
    let state = run(SessionState::new(&records), &records, TALL, &[click(0, 0, 30)]);
    assert_eq!(state.selected_index(), Some(1));
    let state = run(state, &records, TALL, &[click(1000, 0, 3)]);
    assert_eq!(state.selected_index(), Some(1));
}

#[test]
fn click_outside_the_viewport_is_ignored() {
    let records = fleet();
    let state = run(SessionState::new(&records), &records, VIEW, &[Event::Down]);
    let state = run(state, &records, VIEW, &[click(10, 0, 0), click(20, 0, 4), click(30, 9, 900)]);
    assert_eq!(state.selected_index(), Some(1));
    assert_eq!(state.last_click(), None);
    let state = run(state, &records, VIEW, &[click(40, 1, 1), click(5000, 1, 0)]);
    assert_eq!(state.last_click(), Some(Click { at: 40, column: 1, row: 1 }));
    let low = Viewport { height: 3, header: 5 };
    let state = run(state, &records, low, &[click(9000, 0, 4), click(9001, 0, 8)]);
    assert_eq!(state.last_click(), Some(Click { at: 40, column: 1, row: 1 }));
    let state = run(state, &records, low, &[click(9002, 0, 7)]);
    assert_eq!(state.selected_index(), Some(2));
}

#[test]
fn double_click_confirms_the_clicked_record() {
    let records = fleet();
    let state = run(SessionState::new(&records), &records, VIEW, &[click(1000, 4, 3)]);
    let (state, outcome) = state.step(&records, VIEW, click(1000 + DOUBLE_CLICK_MS, 4, 3));
    assert_eq!(outcome, Some(Outcome::Confirmed(records[2].clone())));
    assert_eq!(state.selected_index(), Some(2));
    let state = run(SessionState::new(&records), &records, VIEW, &[Event::Down; 4]);
    let state = run(state, &records, VIEW, &[click(70, 0, 1)]);
    let (_, outcome) = state.step(&records, VIEW, click(70, 0, 1));
    assert_eq!(outcome, Some(Outcome::Confirmed(records[2].clone())));
}

#[test]
fn slow_second_click_does_not_confirm() {
    let records = fleet();
    let state = run(
        SessionState::new(&records),
        &records,
        VIEW,
        &[click(1000, 4, 3), click(1001 + DOUBLE_CLICK_MS, 4, 3)],
    );
    assert_eq!(state.selected_index(), Some(2));
    assert_eq!(
        state.last_click(),
        Some(Click { at: 1001 + DOUBLE_CLICK_MS, column: 4, row: 3 })
    );
    let (_, outcome) = state.step(&records, VIEW, click(1002 + DOUBLE_CLICK_MS, 4, 3));
    assert_eq!(outcome, Some(Outcome::Confirmed(records[2].clone())));
}

#[test]
fn second_click_on_another_cell_does_not_confirm() {
    let records = fleet();
    let state = run(
        SessionState::new(&records),
        &records,
        VIEW,
        &[click(1000, 4, 3), click(1010, 4, 2), click(1020, 5, 2), click(1030, 4, 2)],
    );
    assert_eq!(state.selected_index(), Some(1));
    assert_eq!(state.last_click(), Some(Click { at: 1030, column: 4, row: 2 }));
}

#[test]
fn double_click_on_empty_list_does_not_confirm() {
    let records = fleet();
    let state = SessionState::with_query(&records, "zzz");
    let state = run(state, &records, VIEW, &[click(10, 1, 1), click(20, 1, 1)]);
    assert_eq!(state.selected_index(), None);
    assert_eq!(state.last_click(), Some(Click { at: 20, column: 1, row: 1 }));
}

#[test]
fn keys_between_two_clicks_do_not_part_them() {
    let records = fleet();
    let state = run(
        SessionState::new(&records),
        &records,
        VIEW,
        &[click(100, 2, 2), Event::Down, Event::CursorLeft],
    );
    let (_, outcome) = state.step(&records, VIEW, click(250, 2, 2));
    assert_eq!(outcome, Some(Outcome::Confirmed(records[1].clone())));
}

#[test]
fn double_click_time_is_three_hundred_milliseconds() {
    assert_eq!(DOUBLE_CLICK_MS, 300);
}
