use crustagent::ask::{layout_ask, AskRole, BalloonUi, Button, ButtonSet, ChoiceStyle, RowMarker, MAX_ITEMS};

#[test]
fn lays_out_in_office_order() {
    let ui = BalloonUi::new("Pick one")
        .heading("Orientation")
        .choice("Portrait")
        .choice("Landscape")
        .checkbox("Remember this")
        .buttons(ButtonSet::OkCancel);
    let l = layout_ask(&ui, 0, 40);
    let roles: Vec<AskRole> = l.rows.iter().map(|r| r.role).collect();
    assert_eq!(
        roles,
        vec![
            AskRole::Heading,
            AskRole::Text,
            AskRole::Choice(0),
            AskRole::Choice(1),
            AskRole::CheckBox(0),
            AskRole::Buttons,
        ]
    );
    assert_eq!(l.buttons, vec![Button::Okay, Button::Cancel]);
}

#[test]
fn the_marker_is_data_and_the_text_is_just_the_label() {
    let ui = BalloonUi::new("").choice("First").choice("Second").style(ChoiceStyle::Numbers);
    let l = layout_ask(&ui, 0, 40);
    assert_eq!(l.rows[0].text, "First");
    assert_eq!(l.rows[0].marker, RowMarker::Number(1));
    assert_eq!(l.rows[1].marker, RowMarker::Number(2));
    assert_eq!(l.lines(), vec!["1. First", "2. Second"]);
}

#[test]
fn checkbox_state_comes_from_the_mask() {
    let ui = BalloonUi::new("").checkbox("A").checkbox("B");
    let l = layout_ask(&ui, 0b10, 40);
    assert_eq!(l.rows[0].marker, RowMarker::CheckBox(false));
    assert_eq!(l.rows[1].marker, RowMarker::CheckBox(true));
    assert_eq!(l.lines(), vec!["[ ] A", "[x] B"]);
}

#[test]
fn wrapped_choice_keeps_its_role_and_indents() {
    let l = layout_ask(
        &BalloonUi::new("").choice("one two three four five six").style(ChoiceStyle::Numbers),
        0,
        12,
    );
    assert!(l.rows.len() > 1, "should wrap: {:?}", l.rows);
    assert!(l.rows.iter().all(|r| r.role == AskRole::Choice(0)));
    assert_eq!(l.rows[0].marker, RowMarker::Number(1));
    assert_eq!(l.rows[1].marker, RowMarker::Blank);
    assert_eq!(l.rows[1].indent, l.rows[0].indent);
    let lines = l.lines();
    assert!(lines[0].starts_with("1. "));
    assert!(lines[1].starts_with("   ") && !lines[1].starts_with("1."));
}

#[test]
fn caps_at_five_items() {
    let mut ui = BalloonUi::new("");
    for i in 0..8 {
        ui = ui.choice(&format!("c{i}")).checkbox(&format!("b{i}"));
    }
    assert_eq!(ui.choices.len(), MAX_ITEMS);
    assert_eq!(ui.checkboxes.len(), MAX_ITEMS);
    let over = BalloonUi {
        choices: (0..9).map(|i| format!("c{i}")).collect(),
        ..Default::default()
    };
    let l = layout_ask(&over, 0, 40);
    assert_eq!(l.rows.len(), MAX_ITEMS);
}

#[test]
fn no_buttons_means_no_button_row() {
    let ui = BalloonUi::new("Hi").choice("Yes");
    let l = layout_ask(&ui, 0, 40);
    assert!(l.buttons.is_empty());
    assert!(!l.rows.iter().any(|r| r.role == AskRole::Buttons));
}

#[test]
fn empty_question_lays_out_to_nothing() {
    let l = layout_ask(&BalloonUi::default(), 0, 40);
    assert!(l.rows.is_empty());
    assert_eq!(l.cols, 0);
}

#[test]
fn button_row_text_and_width() {
    let ui = BalloonUi::new("Go?").buttons(ButtonSet::YesNoCancel);
    let l = layout_ask(&ui, 0, 40);
    assert_eq!(l.lines(), vec!["Go?", "[ Yes ]  [ No ]  [ Cancel ]"]);
    assert_eq!(l.cols, "[ Yes ]  [ No ]  [ Cancel ]".len());
    assert_eq!(l.role_at(1), Some(AskRole::Buttons));
    assert_eq!(l.role_at(2), None);
    assert!(AskRole::Buttons.is_interactive());
    assert!(!AskRole::Text.is_interactive());
    assert_eq!(Button::Back.label(), "Back");
}

#[test]
fn empty_label_keeps_its_marker_row() {
    let l = layout_ask(&BalloonUi::new("  ").checkbox(""), 1, 40);
    assert_eq!(l.rows.len(), 1);
    assert_eq!(l.lines(), vec!["[x] "]);
}
