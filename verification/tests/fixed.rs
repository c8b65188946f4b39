use fuzzy_finder::view::{FixedView, Render, View};

const LETTERS: &[&str] = &[
    "A", "B", "C", "D", "E", "F", "G", "H", "I", "J", "K", "L", "M",
];

#[test]
fn fixed_window_over_a_long_list() {
    let mut view = FixedView::new(8);
    let result = view.render(&LETTERS);
    assert_eq!(result.len(), 8);
    assert_eq!(result.num_above(), 7);
    assert_eq!(result.selected(), Some(&&"A"));
}

#[test]
fn fixed_selection_stops_at_the_top_row() {
    let mut view = FixedView::new(8);
    for _ in 0..13 {
        view.up();
    }
    assert_eq!(view.index, 7);
    let result = view.render(&LETTERS);
    assert_eq!(result.len(), 8);
    assert_eq!(result.num_above(), 0);
    assert_eq!(result.selected(), Some(&&"H"));
    for _ in 0..13 {
        view.down();
    }
    assert_eq!(view.index, 0);
}

#[test]
fn fixed_window_over_a_short_list() {
    let mut view = FixedView::new(8);
    view.up();
    let result = view.render(&LETTERS[..3]);
    assert_eq!(view.index, 1);
    assert_eq!(result.len(), 3);
    assert_eq!(result.num_above(), 1);
    assert_eq!(result.selected(), Some(&&"B"));
    let rows: Vec<(bool, &str)> = result.into_rows().into_iter().map(|(f, s)| (f, *s)).collect();
    assert_eq!(rows, vec![(false, "C"), (true, "B"), (false, "A")]);
}

#[test]
fn fixed_selection_follows_a_shrinking_list() {
    let mut view = FixedView::new(8);
    for _ in 0..5 {
        view.up();
    }
    let result = view.render(&LETTERS[..2]);
    assert_eq!(view.index, 1);
    assert_eq!(result.len(), 2);
    assert_eq!(result.num_above(), 0);
    assert_eq!(result.selected(), Some(&&"B"));
}

#[test]
fn fixed_empty_list_resets_the_view() {
    let mut view = FixedView::new(8);
    view.up();
    view.up();
    let none: &[&str] = &[];
    let result = view.render(none);
    assert!(matches!(result, Render::Empty));
    assert_eq!(view.index, 0);
}

#[test]
fn fixed_selection_stays_in_the_list() {
    for ups in 0..20usize {
        for downs in 0..20usize {
            for len in 1..=13usize {
                let mut view = FixedView::new(8);
                for _ in 0..ups {
                    view.up();
                }
                for _ in 0..downs {
                    view.down();
                }
                let result = view.render(&LETTERS[..len]);
                assert!(view.index < len.min(8));
                assert_eq!(result.len(), len.min(8));
            }
        }
    }
}
