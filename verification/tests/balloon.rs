use crustagent::balloon::{wrap_last_rows, wrap_words};

fn w(s: &str) -> Vec<String> {
    s.split_whitespace().map(String::from).collect()
}

#[test]
fn last_rows_scrolls_to_the_tail() {
    let full = wrap_words(&w("aaa bbb ccc ddd eee fff"), 7);
    assert!(full.rows >= 3);
    let paged = wrap_last_rows(&w("aaa bbb ccc ddd eee fff"), 7, 2);
    assert_eq!(paged.rows, 2);
    assert_eq!(paged.lines, full.lines[full.rows - 2..]);
}

#[test]
fn last_rows_noop_when_fits() {
    let l = wrap_last_rows(&w("a b c"), 40, 2);
    assert_eq!(l.lines, ["a b c"]);
}

#[test]
fn wraps_at_word_boundaries() {
    let l = wrap_words(&w("the quick brown fox"), 10);
    assert_eq!(l.lines, ["the quick", "brown fox"]);
    assert_eq!(l.rows, 2);
    assert_eq!(l.cols, 9);
}

#[test]
fn long_word_gets_its_own_line() {
    let l = wrap_words(&w("hi supercalifragilistic ok"), 8);
    assert_eq!(l.lines, ["hi", "supercalifragilistic", "ok"]);
    assert_eq!(l.cols, "supercalifragilistic".len());
}

#[test]
fn empty_input() {
    let l = wrap_words(&[], 20);
    assert!(l.lines.is_empty());
    assert_eq!((l.cols, l.rows), (0, 0));
}

#[test]
fn single_line_fits() {
    let l = wrap_words(&w("all on one line"), 40);
    assert_eq!(l.lines, ["all on one line"]);
    assert_eq!(l.rows, 1);
}

#[test]
fn zero_width_is_one_word_per_line() {
    let l = wrap_words(&w("a b"), 0);
    assert_eq!(l.lines, ["a", "b"]);
    let m = wrap_last_rows(&w("a b c"), 1, 0);
    assert_eq!(m.lines, ["c"]);
    assert_eq!((m.rows, m.cols), (1, 1));
}
