use crustagent::ask::{AskHit, AskLayout, AskRole, AskRow, Button, ChoiceStyle, RowMarker};
use crustagent::ask_geometry::{ask_hit_test, ask_metrics, ask_rects, AskPads, RowMetric};
use crustagent::balloon_ui::AskRect;

fn row(text: &str, role: AskRole, marker: RowMarker, indent: usize) -> AskRow {
    AskRow { text: text.to_string(), role, marker, indent }
}

fn sample() -> AskLayout {
    AskLayout {
        rows: vec![
            row("Q", AskRole::Heading, RowMarker::Blank, 0),
            row("A", AskRole::Choice(0), RowMarker::Number(1), 2),
            row("A2", AskRole::Choice(0), RowMarker::Blank, 2),
            row("", AskRole::Buttons, RowMarker::Blank, 0),
        ],
        cols: 3,
        buttons: vec![Button::Okay],
        style: ChoiceStyle::Numbers,
    }
}

fn pads() -> AskPads {
    AskPads { btn_hpad: 10, btn_vpad: 4, btn_gap: 8, group_gap: 6, heading_gap: 7, marker_gap: 5 }
}

#[test]
fn metrics_stack_rows_with_group_and_heading_gaps() {
    let m = ask_metrics(&sample(), 10, &vec![30, 20, 25, 0], &vec![0, 12, 0, 0], &vec![15], pads());
    assert_eq!(m.marker_w, 12);
    assert_eq!(
        m.rows,
        vec![
            RowMetric { dy: 0, h: 10, text_dx: 0 },
            RowMetric { dy: 17, h: 10, text_dx: 17 },
            RowMetric { dy: 27, h: 10, text_dx: 17 },
            RowMetric { dy: 43, h: 18, text_dx: 0 },
        ]
    );
    assert_eq!(m.buttons, vec![(0, 35)]);
    assert_eq!(m.w, 42);
    assert_eq!(m.h, 61);
}

#[test]
fn empty_layout_measures_one_by_one() {
    let l = AskLayout { rows: vec![], cols: 0, buttons: vec![], style: ChoiceStyle::Buttons };
    let m = ask_metrics(&l, 10, &vec![], &vec![], &vec![], pads());
    assert_eq!((m.w, m.h, m.marker_w), (1, 1, 0));
    assert!(m.rows.is_empty() && m.buttons.is_empty());
}

#[test]
fn wrapped_choice_is_one_region_and_buttons_hug_their_boxes() {
    let l = sample();
    let m = ask_metrics(&l, 10, &vec![30, 20, 25, 0], &vec![0, 12, 0, 0], &vec![15], pads());
    let rects = ask_rects(&l, &m, 100, 4, 4);
    assert_eq!(
        rects,
        vec![
            AskRect { hit: AskHit::Choice(0), x: 4, y: 21, w: 92, h: 20 },
            AskRect { hit: AskHit::Button(Button::Okay), x: 4, y: 47, w: 35, h: 18 },
        ]
    );
}

#[test]
fn hit_test_finds_the_control_under_the_pointer() {
    let l = sample();
    let m = ask_metrics(&l, 10, &vec![30, 20, 25, 0], &vec![0, 12, 0, 0], &vec![15], pads());
    assert_eq!(ask_hit_test(&l, &m, 100, 4, 4, 10, 30), Some(AskHit::Choice(0)));
    assert_eq!(ask_hit_test(&l, &m, 100, 4, 4, 10, 50), Some(AskHit::Button(Button::Okay)));
    assert_eq!(ask_hit_test(&l, &m, 100, 4, 4, 10, 5), None);
    assert_eq!(ask_hit_test(&l, &m, 100, 4, 4, 50, 50), None);
}
