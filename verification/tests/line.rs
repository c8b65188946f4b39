use fuzzy_finder::line::get_coloured_line;

const GREY_BG: &str = "\x1b[48;2;50;50;50m";
const BLUE_BG: &str = "\x1b[48;2;13;88;138m";
const GREY_FG: &str = "\x1b[38;2;50;50;50m";
const GREEN_FG: &str = "\x1b[38;2;168;204;140m";
const NO_BG: &str = "\x1b[49m";
const NO_FG: &str = "\x1b[39m";

#[test]
fn plain_row_without_marks() {
    let line = get_coloured_line(&[], "frodo", false);
    assert_eq!(line, format!("{GREY_BG} {NO_BG}  frodo"));
}

#[test]
fn selected_row_without_marks() {
    let line = get_coloured_line(&[], "frodo", true);
    assert_eq!(
        line,
        format!("{GREY_BG}{GREEN_FG}>{NO_FG}{NO_BG}{GREY_FG}  {NO_FG}{GREY_BG}frodo{NO_BG}")
    );
}

#[test]
fn plain_row_with_marks() {
    let line = get_coloured_line(&[1, 3], "frodo", false);
    assert_eq!(
        line,
        format!("{GREY_BG} {NO_BG}  f{BLUE_BG}r{NO_BG}o{BLUE_BG}d{NO_BG}o")
    );
}

#[test]
fn selected_row_with_marks() {
    let line = get_coloured_line(&[0, 4], "frodo", true);
    assert_eq!(
        line,
        format!(
            "{GREY_BG}{GREEN_FG}>{NO_FG}{NO_BG}{GREY_FG}  {NO_FG}\
             {GREY_BG}{NO_BG}{BLUE_BG}f{NO_BG}\
             {GREY_BG}rod{NO_BG}{BLUE_BG}o{NO_BG}\
             {GREY_BG}{NO_BG}"
        )
    );
}

#[test]
fn marks_count_characters_not_bytes() {
    let line = get_coloured_line(&[1], "héllo", false);
    assert_eq!(line, format!("{GREY_BG} {NO_BG}  h{BLUE_BG}é{NO_BG}llo"));
}

#[test]
fn positions_outside_the_label_are_passed_over() {
    let line = get_coloured_line(&[2, 1, 2, 9, usize::MAX], "abc", false);
    assert_eq!(line, format!("{GREY_BG} {NO_BG}  ab{BLUE_BG}c{NO_BG}"));
    let empty = get_coloured_line(&[0], "", false);
    assert_eq!(empty, format!("{GREY_BG} {NO_BG}  "));
}
