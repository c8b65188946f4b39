use fuzzy_finder::item::Item;
use fuzzy_finder::line::get_coloured_line;
use fuzzy_finder::session::{Escape, Key, Step};
use fuzzy_finder::FuzzyFinder;

fn letters(n: usize) -> Vec<Item<u32>> {
    "ABCDEFGHIJKLM"
        .chars()
        .take(n)
        .enumerate()
        .map(|(i, c)| Item::new(c.to_string(), i as u32))
        .collect()
}

fn press(finder: &mut FuzzyFinder<u32>, text: &str) {
    for c in text.chars() {
        finder.on_key(Key::Char(c));
    }
}

#[test]
fn new_session_offers_every_item() {
    let finder = FuzzyFinder::new(letters(13), 8);
    assert_eq!(finder.search_term, "");
    assert_eq!(finder.all_items.len(), 13);
    assert_eq!(finder.matches.len(), 13);
    assert_eq!(finder.matches[0].item.name, "A");
    assert_eq!(finder.matches[12].item.name, "M");
    assert_eq!(finder.view.capacity, 8);
    assert_eq!((finder.view.index, finder.view.skip), (0, 0));
    assert_eq!(finder.escape, Escape::Idle);
    assert!(!finder.escape_pending());
}

#[test]
fn screen_has_one_row_for_each_line() {
    let mut finder = FuzzyFinder::new(letters(13), 8);
    let rows = finder.render();
    assert_eq!(rows.len(), 8);
    let names = ["H", "G", "F", "E", "D", "C", "B", "A"];
    for (i, row) in rows.iter().enumerate() {
        assert_eq!(*row, get_coloured_line(&[], names[i], i == 7));
    }
}

#[test]
fn screen_pads_a_short_list_with_empty_rows() {
    let mut finder = FuzzyFinder::new(letters(3), 8);
    finder.up();
    let rows = finder.render();
    assert_eq!(rows.len(), 8);
    for row in &rows[..5] {
        assert_eq!(row, "");
    }
    assert_eq!(rows[5], get_coloured_line(&[], "C", false));
    assert_eq!(rows[6], get_coloured_line(&[], "B", true));
    assert_eq!(rows[7], get_coloured_line(&[], "A", false));
}

#[test]
fn screen_of_no_matches_is_blank() {
    let mut finder = FuzzyFinder::new(letters(13), 3);
    finder.up();
    press(&mut finder, "zz");
    assert!(finder.matches.is_empty());
    let rows = finder.render();
    assert_eq!(rows, vec![String::new(), String::new(), String::new()]);
    assert_eq!((finder.view.index, finder.view.skip), (0, 0));
}

#[test]
fn confirm_on_no_matches_gives_nothing() {
    let mut finder = FuzzyFinder::new(letters(13), 8);
    press(&mut finder, "zz");
    assert_eq!(finder.search_term, "zz");
    assert!(finder.matches.is_empty());
    assert_eq!(finder.confirm(), None);
    assert!(matches!(finder.on_key(Key::Char('\n')), Step::Cancel));
}

#[test]
fn confirm_gives_the_selected_value() {
    let mut finder = FuzzyFinder::new(letters(13), 8);
    assert_eq!(finder.confirm(), Some(0));
    finder.up();
    finder.up();
    assert_eq!(finder.confirm(), Some(2));
    for _ in 0..30 {
        finder.up();
    }
    assert!(matches!(finder.on_key(Key::Char('\n')), Step::Chosen(12)));
    assert_eq!((finder.view.index, finder.view.skip), (7, 5));
    for _ in 0..30 {
        finder.down();
    }
    assert!(matches!(finder.on_key(Key::Char('\n')), Step::Chosen(0)));
}

#[test]
fn typing_narrows_the_matches() {
    let mut finder = FuzzyFinder::new(letters(13), 8);
    assert!(matches!(finder.on_key(Key::Char('c')), Step::Draw));
    assert_eq!(finder.search_term, "c");
    assert_eq!(finder.matches.len(), 1);
    assert_eq!(finder.matches[0].item.name, "C");
    assert_eq!(finder.matches[0].fuzzy_indices, vec![0]);
    assert!(matches!(finder.on_key(Key::Char('\n')), Step::Chosen(2)));
}

#[test]
fn append_adds_to_the_end_of_the_query() {
    let mut finder = FuzzyFinder::new(letters(3), 8);
    finder.append('x');
    finder.append('é');
    finder.append('y');
    assert_eq!(finder.search_term, "xéy");
}

#[test]
fn backspace_takes_one_character() {
    let mut finder = FuzzyFinder::new(letters(13), 8);
    press(&mut finder, "cé");
    assert!(finder.matches.is_empty());
    assert!(matches!(finder.on_key(Key::Backspace), Step::Draw));
    assert_eq!(finder.search_term, "c");
    assert_eq!(finder.matches.len(), 1);
    finder.backspace();
    assert_eq!(finder.search_term, "");
    assert_eq!(finder.matches.len(), 13);
    finder.backspace();
    assert_eq!(finder.search_term, "");
    assert_eq!(finder.matches.len(), 13);
}

#[test]
fn arrow_keys_come_as_escape_sequences() {
    let mut finder = FuzzyFinder::new(letters(13), 8);
    assert!(matches!(finder.on_key(Key::Esc), Step::Keep));
    assert_eq!(finder.escape, Escape::Started);
    assert!(finder.escape_pending());
    assert!(matches!(finder.on_key(Key::Char('[')), Step::Wait));
    assert_eq!(finder.escape, Escape::Bracket);
    assert!(!finder.escape_pending());
    assert!(matches!(finder.on_key(Key::Char('A')), Step::Draw));
    assert_eq!(finder.escape, Escape::Idle);
    assert_eq!(finder.view.index, 1);
    assert_eq!(finder.search_term, "");

    finder.on_key(Key::Esc);
    finder.on_key(Key::Char('['));
    assert!(matches!(finder.on_key(Key::Char('B')), Step::Draw));
    assert_eq!(finder.view.index, 0);
    assert_eq!(finder.search_term, "");
}

#[test]
fn unknown_escape_sequences_are_dropped() {
    let mut finder = FuzzyFinder::new(letters(13), 8);
    finder.on_key(Key::Esc);
    assert!(matches!(finder.on_key(Key::Char('x')), Step::Keep));
    assert_eq!(finder.escape, Escape::Idle);
    assert_eq!(finder.search_term, "");

    finder.on_key(Key::Esc);
    finder.on_key(Key::Esc);
    assert_eq!(finder.escape, Escape::Started);
    finder.on_key(Key::Char('['));
    finder.on_key(Key::Esc);
    assert_eq!(finder.escape, Escape::Bracket);
    assert!(matches!(finder.on_key(Key::Char('C')), Step::Keep));
    assert_eq!(finder.escape, Escape::Idle);
    assert_eq!(finder.view.index, 0);
    assert_eq!(finder.search_term, "");

    assert!(matches!(finder.on_key(Key::Char('A')), Step::Draw));
    assert_eq!(finder.search_term, "A");
}

#[test]
fn control_keys_end_the_session() {
    let mut finder = FuzzyFinder::new(letters(13), 8);
    assert!(matches!(finder.on_key(Key::Ctrl('c')), Step::Cancel));
    assert!(matches!(finder.on_key(Key::Ctrl('d')), Step::Cancel));
    assert!(matches!(finder.on_key(Key::Ctrl('x')), Step::Keep));
    assert!(matches!(finder.on_key(Key::Other), Step::Keep));
    assert_eq!(finder.search_term, "");
    assert_eq!(finder.matches.len(), 13);
}

#[test]
fn moves_keep_query_and_matches() {
    let mut finder = FuzzyFinder::new(letters(3), 8);
    for _ in 0..5 {
        finder.up();
    }
    assert_eq!(finder.view.index, 5);
    finder.update_matches();
    assert_eq!(finder.matches.len(), 3);
    let rows = finder.render();
    assert_eq!(rows.len(), 8);
    assert_eq!((finder.view.index, finder.view.skip), (2, 0));
    assert_eq!(rows[5], get_coloured_line(&[], "C", true));
}

#[test]
fn window_that_fits_below_the_cursor() {
    assert_eq!(fuzzy_finder::layout::rows_short(10, 40, 8), 0);
    assert_eq!(fuzzy_finder::layout::rows_short(32, 40, 8), 0);
}

#[test]
fn window_that_runs_past_the_last_row() {
    assert_eq!(fuzzy_finder::layout::rows_short(33, 40, 8), 1);
    assert_eq!(fuzzy_finder::layout::rows_short(40, 40, 8), 8);
    assert_eq!(fuzzy_finder::layout::rows_short(65408, 1, 127), 65534);
}
