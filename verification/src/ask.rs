//! Interactive balloon content: a question with clickable choices, check boxes and a
//! commit-button row, modeled on the Office Assistant's `Balloon` object.
//!
//! Pure text arithmetic, like the balloon wrapping: content is laid out into rows tagged
//! with what each one is, and the renderer turns rows into pixels and hit-tests them.

use crate::balloon::{lines_view, wrap_words, wrapped};
use crate::textutil::{all_space, decimal, is_blank, push_char, push_decimal, push_str, split_words, split_ws};
use vstd::prelude::*;

verus! {

/// Office caps labels and check boxes at five each; content past that is dropped.
pub const MAX_ITEMS: usize = 5;

/// How a choice list renders (Office's `MsoBalloonType`).
#[derive(Clone, Copy, PartialEq, Eq, Debug, Default, Structural)]
pub enum ChoiceStyle {
    /// Clickable buttons (the default for a new balloon).
    #[default]
    Buttons,
    /// A bulleted list.
    Bullets,
    /// A numbered list.
    Numbers,
}

/// A commit button in the row at the bottom of the balloon.
#[derive(Clone, Copy, PartialEq, Eq, Debug, Structural)]
pub enum Button {
    Okay,
    Cancel,
    Yes,
    No,
    Next,
    Back,
    Close,
}

/// A button's display text.
pub open spec fn button_label(b: Button) -> Seq<char> {
    match b {
        Button::Okay => "OK"@,
        Button::Cancel => "Cancel"@,
        Button::Yes => "Yes"@,
        Button::No => "No"@,
        Button::Next => "Next"@,
        Button::Back => "Back"@,
        Button::Close => "Close"@,
    }
}

impl Button {
    /// The button's display text.
    pub fn label(self) -> (s: &'static str)
        ensures
            s@ == button_label(self),
    {
        match self {
            Button::Okay => "OK",
            Button::Cancel => "Cancel",
            Button::Yes => "Yes",
            Button::No => "No",
            Button::Next => "Next",
            Button::Back => "Back",
            Button::Close => "Close",
        }
    }
}

/// Which commit buttons the balloon shows (Office's `MsoButtonSetType`).
#[derive(Clone, Copy, PartialEq, Eq, Debug, Default, Structural)]
pub enum ButtonSet {
    /// No button row: choices alone commit the answer.
    #[default]
    NoButtons,
    OkOnly,
    Cancel,
    OkCancel,
    YesNo,
    YesNoCancel,
    NextClose,
    BackNextClose,
}

/// The buttons of a set, left to right.
pub open spec fn set_buttons(s: ButtonSet) -> Seq<Button> {
    match s {
        ButtonSet::NoButtons => seq![],
        ButtonSet::OkOnly => seq![Button::Okay],
        ButtonSet::Cancel => seq![Button::Cancel],
        ButtonSet::OkCancel => seq![Button::Okay, Button::Cancel],
        ButtonSet::YesNo => seq![Button::Yes, Button::No],
        ButtonSet::YesNoCancel => seq![Button::Yes, Button::No, Button::Cancel],
        ButtonSet::NextClose => seq![Button::Next, Button::Close],
        ButtonSet::BackNextClose => seq![Button::Back, Button::Next, Button::Close],
    }
}

impl ButtonSet {
    /// The buttons in this set, left to right.
    pub fn buttons(self) -> (v: Vec<Button>)
        ensures
            v@ == set_buttons(self),
    {
        let v = match self {
            ButtonSet::NoButtons => vec![],
            ButtonSet::OkOnly => vec![Button::Okay],
            ButtonSet::Cancel => vec![Button::Cancel],
            ButtonSet::OkCancel => vec![Button::Okay, Button::Cancel],
            ButtonSet::YesNo => vec![Button::Yes, Button::No],
            ButtonSet::YesNoCancel => vec![Button::Yes, Button::No, Button::Cancel],
            ButtonSet::NextClose => vec![Button::Next, Button::Close],
            ButtonSet::BackNextClose => vec![Button::Back, Button::Next, Button::Close],
        };
        assert(v@ =~= set_buttons(self));
        v
    }
}

/// When the balloon goes away (Office's `MsoModeType`).
#[derive(Clone, Copy, PartialEq, Eq, Debug, Default, Structural)]
pub enum BalloonMode {
    /// Holds the agent's queue until the user answers.
    #[default]
    Modal,
    /// Shown without holding the queue: the character carries on while the question
    /// lingers.
    Modeless,
    /// Like `Modeless`, but any reported click dismisses it unanswered.
    AutoDown,
}

/// A question to put in the balloon: an optional heading, body text, up to
/// [`MAX_ITEMS`] clickable choices, up to [`MAX_ITEMS`] check boxes, and a commit-button
/// row. Clicking a choice answers immediately; a check box toggles and waits for a
/// commit button.
#[derive(Clone, Debug, Default, PartialEq, Eq)]
pub struct BalloonUi {
    /// Bold text at the top of the balloon.
    pub heading: Option<String>,
    /// Body text, above the choices.
    pub text: String,
    /// Clickable choices; each commits immediately. Capped at [`MAX_ITEMS`].
    pub choices: Vec<String>,
    /// Toggles that wait for a commit button. Capped at [`MAX_ITEMS`].
    pub checkboxes: Vec<String>,
    /// The commit-button row.
    pub buttons: ButtonSet,
    /// How the choices render.
    pub style: ChoiceStyle,
    /// When the balloon goes away.
    pub mode: BalloonMode,
}

/// A question as plain values.
pub struct UiView {
    pub heading: Option<Seq<char>>,
    pub text: Seq<char>,
    pub choices: Seq<Seq<char>>,
    pub checkboxes: Seq<Seq<char>>,
    pub buttons: ButtonSet,
    pub style: ChoiceStyle,
    pub mode: BalloonMode,
}

impl View for BalloonUi {
    type V = UiView;

    open spec fn view(&self) -> UiView {
        UiView {
            heading: match self.heading {
                Some(h) => Some(h@),
                None => None,
            },
            text: self.text@,
            choices: lines_view(self.choices@),
            checkboxes: lines_view(self.checkboxes@),
            buttons: self.buttons,
            style: self.style,
            mode: self.mode,
        }
    }
}

/// `items` with `label` added unless it already holds [`MAX_ITEMS`].
pub open spec fn capped_push(items: Seq<Seq<char>>, label: Seq<char>) -> Seq<Seq<char>> {
    if items.len() < MAX_ITEMS {
        items.push(label)
    } else {
        items
    }
}

fn copy_str(s: &str) -> (r: String)
    ensures
        r@ == s@,
{
    let mut r = String::new();
    push_str(&mut r, s);
    r
}

impl BalloonUi {
    /// A question with body `text` and no controls yet.
    pub fn new(text: &str) -> (ui: BalloonUi)
        ensures
            ui@ == (UiView {
                heading: None,
                text: text@,
                choices: Seq::empty(),
                checkboxes: Seq::empty(),
                buttons: ButtonSet::NoButtons,
                style: ChoiceStyle::Buttons,
                mode: BalloonMode::Modal,
            }),
    {
        let ui = BalloonUi {
            heading: None,
            text: copy_str(text),
            choices: Vec::new(),
            checkboxes: Vec::new(),
            buttons: ButtonSet::NoButtons,
            style: ChoiceStyle::Buttons,
            mode: BalloonMode::Modal,
        };
        assert(ui@.choices =~= Seq::<Seq<char>>::empty());
        assert(ui@.checkboxes =~= Seq::<Seq<char>>::empty());
        ui
    }

    /// Set the bold heading.
    pub fn heading(self, heading: &str) -> (ui: BalloonUi)
        ensures
            ui@ == (UiView { heading: Some(heading@), ..self@ }),
    {
        BalloonUi { heading: Some(copy_str(heading)), ..self }
    }

    /// Add a clickable choice; ignored past [`MAX_ITEMS`].
    pub fn choice(self, label: &str) -> (ui: BalloonUi)
        ensures
            ui@ == (UiView { choices: capped_push(self@.choices, label@), ..self@ }),
    {
        let mut s = self;
        if s.choices.len() < MAX_ITEMS {
            s.choices.push(copy_str(label));
        }
        assert(s@.choices =~= capped_push(self@.choices, label@));
        s
    }

    /// Add a check box; ignored past [`MAX_ITEMS`].
    pub fn checkbox(self, label: &str) -> (ui: BalloonUi)
        ensures
            ui@ == (UiView { checkboxes: capped_push(self@.checkboxes, label@), ..self@ }),
    {
        let mut s = self;
        if s.checkboxes.len() < MAX_ITEMS {
            s.checkboxes.push(copy_str(label));
        }
        assert(s@.checkboxes =~= capped_push(self@.checkboxes, label@));
        s
    }

    /// Set the commit-button row.
    pub fn buttons(self, buttons: ButtonSet) -> (ui: BalloonUi)
        ensures
            ui@ == (UiView { buttons, ..self@ }),
    {
        BalloonUi { buttons, ..self }
    }

    /// Set how the choices render.
    pub fn style(self, style: ChoiceStyle) -> (ui: BalloonUi)
        ensures
            ui@ == (UiView { style, ..self@ }),
    {
        BalloonUi { style, ..self }
    }

    /// Set when the balloon goes away.
    pub fn mode(self, mode: BalloonMode) -> (ui: BalloonUi)
        ensures
            ui@ == (UiView { mode, ..self@ }),
    {
        BalloonUi { mode, ..self }
    }
}

/// What a laid-out row is, so the renderer can draw the right chrome and turn a click
/// on the row into an answer.
#[derive(Clone, Copy, PartialEq, Eq, Debug, Structural)]
pub enum AskRole {
    /// The heading.
    Heading,
    /// Body text.
    Text,
    /// Part of choice `n` (0-based); a wrapped choice spans several rows.
    Choice(usize),
    /// Part of check box `n` (0-based).
    CheckBox(usize),
    /// The commit-button row.
    Buttons,
}

impl AskRole {
    /// Whether a click on this row means something.
    pub fn is_interactive(self) -> (r: bool)
        ensures
            r == (self is Choice || self is CheckBox || self is Buttons),
    {
        match self {
            AskRole::Choice(_) | AskRole::CheckBox(_) | AskRole::Buttons => true,
            _ => false,
        }
    }
}

/// The control drawn in a row's left margin. Only the first row of a wrapped control
/// carries a marker; its continuation rows carry `Blank` and align under the text.
#[derive(Clone, Copy, PartialEq, Eq, Debug, Structural)]
pub enum RowMarker {
    /// No marker (a heading, body text, or a continuation row).
    Blank,
    /// A clickable choice in the `Buttons` style: a radio-style disc.
    Choice,
    /// A bulleted-list choice.
    Bullet,
    /// A numbered-list choice; the 1-based number.
    Number(usize),
    /// A check box and whether it is ticked.
    CheckBox(bool),
}

/// The ASCII stand-in for a marker; `Blank` is `indent` spaces.
pub open spec fn marker_ascii(m: RowMarker, indent: usize) -> Seq<char> {
    match m {
        RowMarker::Blank => Seq::new(indent as nat, |i: int| ' '),
        RowMarker::Choice => seq!['*', ' '],
        RowMarker::Bullet => seq!['-', ' '],
        RowMarker::Number(n) => decimal(n as nat) + seq!['.', ' '],
        RowMarker::CheckBox(true) => seq!['[', 'x', ']', ' '],
        RowMarker::CheckBox(false) => seq!['[', ' ', ']', ' '],
    }
}

impl RowMarker {
    /// The ASCII stand-in a chrome-free renderer prints in the left margin.
    pub fn ascii(self, indent: usize) -> (s: String)
        ensures
            s@ == marker_ascii(self, indent),
    {
        let mut s = String::new();
        match self {
            RowMarker::Blank => {
                let mut i: usize = 0;
                while i < indent
                    invariant
                        0 <= i <= indent,
                        s@ == Seq::new(i as nat, |k: int| ' '),
                    decreases indent - i,
                {
                    push_char(&mut s, ' ');
                    i += 1;
                    assert(s@ =~= Seq::new(i as nat, |k: int| ' '));
                }
            },
            RowMarker::Choice => {
                push_char(&mut s, '*');
                push_char(&mut s, ' ');
            },
            RowMarker::Bullet => {
                push_char(&mut s, '-');
                push_char(&mut s, ' ');
            },
            RowMarker::Number(n) => {
                push_decimal(&mut s, n);
                push_char(&mut s, '.');
                push_char(&mut s, ' ');
            },
            RowMarker::CheckBox(on) => {
                push_char(&mut s, '[');
                push_char(&mut s, if on { 'x' } else { ' ' });
                push_char(&mut s, ']');
                push_char(&mut s, ' ');
            },
        }
        assert(s@ =~= marker_ascii(self, indent));
        s
    }
}

/// One laid-out row: the label text without any marker, what the row is, the marker to
/// draw in its left margin, and how many character cells that margin reserves.
#[derive(Clone, Debug, PartialEq, Eq)]
pub struct AskRow {
    pub text: String,
    pub role: AskRole,
    pub marker: RowMarker,
    pub indent: usize,
}

/// A row as plain values.
pub struct RowView {
    pub text: Seq<char>,
    pub role: AskRole,
    pub marker: RowMarker,
    pub indent: usize,
}

impl View for AskRow {
    type V = RowView;

    open spec fn view(&self) -> RowView {
        RowView { text: self.text@, role: self.role, marker: self.marker, indent: self.indent }
    }
}

/// A row as plain text: the marker's stand-in (or matching indent), then the label.
pub open spec fn row_line(r: RowView) -> Seq<char> {
    marker_ascii(r.marker, r.indent) + r.text
}

impl AskRow {
    /// The row as plain text: marker stand-in (or matching indent) followed by the label.
    pub fn line(&self) -> (s: String)
        ensures
            s@ == row_line(self@),
    {
        let mut s = self.marker.ascii(self.indent);
        push_str(&mut s, self.text.as_str());
        s
    }
}

/// A question laid out into rows, ready for a renderer to draw and hit-test.
#[derive(Clone, Debug, Default, PartialEq, Eq)]
pub struct AskLayout {
    /// Rows top to bottom.
    pub rows: Vec<AskRow>,
    /// Widest row, in characters.
    pub cols: usize,
    /// The buttons of the button row, left to right (empty if there is none).
    pub buttons: Vec<Button>,
    /// How the choices render.
    pub style: ChoiceStyle,
}

/// The views of a list of rows.
pub open spec fn rows_view(v: Seq<AskRow>) -> Seq<RowView> {
    Seq::new(v.len(), |i: int| v[i]@)
}

impl AskLayout {
    /// The role of row `i`, if it exists.
    pub fn role_at(&self, i: usize) -> (r: Option<AskRole>)
        ensures
            r == (if i < self.rows@.len() {
                Some(self.rows@[i as int].role)
            } else {
                None
            }),
    {
        if i < self.rows.len() {
            Some(self.rows[i].role)
        } else {
            None
        }
    }

    /// The rows as plain text, markers rendered as ASCII stand-ins.
    pub fn lines(&self) -> (v: Vec<String>)
        ensures
            lines_view(v@) == Seq::new(self.rows@.len(), |i: int| row_line(self.rows@[i]@)),
    {
        let mut v: Vec<String> = Vec::new();
        let mut i: usize = 0;
        while i < self.rows.len()
            invariant
                0 <= i <= self.rows@.len(),
                v@.len() == i,
                forall|k: int| 0 <= k < i ==> (#[trigger] v@[k])@ == row_line(self.rows@[k]@),
            decreases self.rows@.len() - i,
        {
            v.push(self.rows[i].line());
            i += 1;
        }
        assert(lines_view(v@) =~= Seq::new(self.rows@.len(), |k: int| row_line(self.rows@[k]@)));
        v
    }
}

/// What a click landed on, as reported back to the agent.
#[derive(Clone, Copy, PartialEq, Eq, Debug, Structural)]
pub enum AskHit {
    /// Choice `n` (0-based): commits the answer.
    Choice(usize),
    /// Check box `n` (0-based): toggles.
    CheckBox(usize),
    /// A commit button.
    Button(Button),
}

/// The marker for choice `i`, per the choice style.
pub open spec fn choice_marker(style: ChoiceStyle, i: int) -> RowMarker {
    match style {
        ChoiceStyle::Buttons => RowMarker::Choice,
        ChoiceStyle::Bullets => RowMarker::Bullet,
        ChoiceStyle::Numbers => RowMarker::Number((i + 1) as usize),
    }
}

/// The rows a label wraps to at `per_line` characters: the first carries `marker`,
/// continuation rows carry none and align under the text; an empty label still takes
/// one row.
pub open spec fn label_rows(label: Seq<char>, marker: RowMarker, role: AskRole, per_line: int) -> Seq<
    RowView,
> {
    let indent = marker_ascii(marker, 0).len() as usize;
    let width = if per_line - indent < 1 {
        1
    } else {
        per_line - indent
    };
    let lines = wrapped(split_ws(label), width);
    if lines.len() == 0 {
        seq![RowView { text: Seq::empty(), role, marker, indent }]
    } else {
        Seq::new(
            lines.len(),
            |n: int|
                RowView {
                    text: lines[n],
                    role,
                    marker: if n == 0 {
                        marker
                    } else {
                        RowMarker::Blank
                    },
                    indent,
                },
        )
    }
}

/// Whether check box `i` is ticked in the `checked` mask.
pub open spec fn bit_set(checked: u8, i: int) -> bool {
    checked & (1u8 << (i as u8)) != 0
}

/// The rows of the first `n` choices.
pub open spec fn choice_rows(ui: UiView, n: nat, per_line: int) -> Seq<RowView>
    decreases n,
{
    if n == 0 {
        Seq::empty()
    } else {
        choice_rows(ui, (n - 1) as nat, per_line) + label_rows(
            ui.choices[n - 1],
            choice_marker(ui.style, n - 1),
            AskRole::Choice((n - 1) as usize),
            per_line,
        )
    }
}

/// The rows of the first `n` check boxes.
pub open spec fn checkbox_rows(ui: UiView, checked: u8, n: nat, per_line: int) -> Seq<RowView>
    decreases n,
{
    if n == 0 {
        Seq::empty()
    } else {
        checkbox_rows(ui, checked, (n - 1) as nat, per_line) + label_rows(
            ui.checkboxes[n - 1],
            RowMarker::CheckBox(bit_set(checked, n - 1)),
            AskRole::CheckBox((n - 1) as usize),
            per_line,
        )
    }
}

/// The button row's text: each button as `[ label ]`, two spaces apart.
pub open spec fn button_text(bs: Seq<Button>) -> Seq<char>
    decreases bs.len(),
{
    if bs.len() == 0 {
        Seq::empty()
    } else {
        let cell = seq!['[', ' '] + button_label(bs.last()) + seq![' ', ']'];
        if bs.len() == 1 {
            cell
        } else {
            button_text(bs.drop_last()) + seq![' ', ' '] + cell
        }
    }
}

/// The rows of a question, top to bottom: heading, text (unless blank), the first
/// [`MAX_ITEMS`] choices, the first [`MAX_ITEMS`] check boxes, then the button row if the
/// set has buttons. `per_line` is raised to at least 8.
pub open spec fn ask_rows(ui: UiView, checked: u8, per_line: int) -> Seq<RowView> {
    let per = if per_line < 8 { 8 } else { per_line };
    let head = match ui.heading {
        Some(h) => label_rows(h, RowMarker::Blank, AskRole::Heading, per),
        None => Seq::empty(),
    };
    let body = if all_space(ui.text) {
        Seq::empty()
    } else {
        label_rows(ui.text, RowMarker::Blank, AskRole::Text, per)
    };
    let nc = if ui.choices.len() < MAX_ITEMS { ui.choices.len() } else { MAX_ITEMS as nat };
    let nb = if ui.checkboxes.len() < MAX_ITEMS { ui.checkboxes.len() } else { MAX_ITEMS as nat };
    let bs = set_buttons(ui.buttons);
    let tail = if bs.len() > 0 {
        seq![RowView { text: button_text(bs), role: AskRole::Buttons, marker: RowMarker::Blank, indent: 0 }]
    } else {
        Seq::empty()
    };
    head + body + choice_rows(ui, nc, per) + checkbox_rows(ui, checked, nb, per) + tail
}

/// The widest of the first `n` rows' plain-text lines.
pub open spec fn widest_row(rows: Seq<RowView>, n: nat) -> int
    decreases n,
{
    if n == 0 {
        0
    } else {
        let w = widest_row(rows, (n - 1) as nat);
        if row_line(rows[n - 1]).len() > w {
            row_line(rows[n - 1]).len() as int
        } else {
            w
        }
    }
}

/// Wrap `label` and push it as rows tagged `role`.
fn push_wrapped(rows: &mut Vec<AskRow>, label: &str, marker: RowMarker, role: AskRole, per_line: usize)
    ensures
        rows_view(final(rows)@) == rows_view(old(rows)@) + label_rows(label@, marker, role, per_line as int),
{
    let indent = marker.ascii(0).unicode_len();
    let words = split_words(label);
    let width = if per_line > indent && per_line - indent >= 1 { per_line - indent } else { 1 };
    assert(lines_view(words@) =~= split_ws(label@));
    let wrapped_l = wrap_words(words.as_slice(), width);
    let ghost start = rows_view(rows@);
    if wrapped_l.lines.len() == 0 {
        rows.push(AskRow { text: String::new(), role, marker, indent });
        assert(rows_view(rows@) =~= start + label_rows(label@, marker, role, per_line as int));
        return;
    }
    let ghost lbl = label_rows(label@, marker, role, per_line as int);
    let mut n: usize = 0;
    while n < wrapped_l.lines.len()
        invariant
            0 <= n <= wrapped_l.lines@.len(),
            lbl.len() == wrapped_l.lines@.len(),
            lbl == label_rows(label@, marker, role, per_line as int),
            forall|k: int| 0 <= k < lbl.len() ==> (#[trigger] lbl[k]).text == wrapped_l.lines@[k]@
                && lbl[k].role == role && lbl[k].indent == indent && lbl[k].marker == (if k == 0 {
                    marker
                } else {
                    RowMarker::Blank
                }),
            rows@.len() == start.len() + n,
            forall|k: int| 0 <= k < start.len() ==> (#[trigger] rows@[k])@ == start[k],
            forall|k: int| 0 <= k < n ==> (#[trigger] rows@[start.len() + k])@ == lbl[k],
        decreases wrapped_l.lines@.len() - n,
    {
        rows.push(
            AskRow {
                text: crate::textutil::copy_string(&wrapped_l.lines[n]),
                role,
                marker: if n == 0 { marker } else { RowMarker::Blank },
                indent,
            },
        );
        n += 1;
    }
    assert forall|k: int| 0 <= k < rows@.len() implies #[trigger] rows_view(rows@)[k] == (start + lbl)[k] by {
        if k >= start.len() {
            let j = k - start.len();
            assert(rows@[start.len() + j]@ == lbl[j]);
        }
    }
    assert(rows_view(rows@) =~= start + lbl);
}

/// The button row's text for `bs`.
fn button_row_text(bs: &Vec<Button>) -> (s: String)
    ensures
        s@ == button_text(bs@),
{
    let mut s = String::new();
    let mut i: usize = 0;
    while i < bs.len()
        invariant
            0 <= i <= bs@.len(),
            s@ == button_text(bs@.subrange(0, i as int)),
        decreases bs@.len() - i,
    {
        if i > 0 {
            push_char(&mut s, ' ');
            push_char(&mut s, ' ');
        }
        push_char(&mut s, '[');
        push_char(&mut s, ' ');
        push_str(&mut s, bs[i].label());
        push_char(&mut s, ' ');
        push_char(&mut s, ']');
        i += 1;
        assert(bs@.subrange(0, i as int).drop_last() =~= bs@.subrange(0, (i - 1) as int));
        assert(s@ =~= button_text(bs@.subrange(0, i as int)));
    }
    assert(bs@.subrange(0, i as int) =~= bs@);
    s
}

/// Lay a question out into rows at `per_line` characters wide (at least 8), rendering
/// check boxes with their state from the `checked` bitmask (bit `n` is check box `n`).
/// Row order matches Office's balloon: heading, text, choices, check boxes, button row.
#[verifier::rlimit(40)]
pub fn layout_ask(ui: &BalloonUi, checked: u8, per_line: usize) -> (l: AskLayout)
    ensures
        rows_view(l.rows@) == ask_rows(ui@, checked, per_line as int),
        l.cols == widest_row(rows_view(l.rows@), l.rows@.len()),
        l.buttons@ == set_buttons(ui.buttons),
        l.style == ui.style,
{
    let per = if per_line < 8 { 8 } else { per_line };
    let mut rows: Vec<AskRow> = Vec::new();
    if let Some(heading) = &ui.heading {
        push_wrapped(&mut rows, heading.as_str(), RowMarker::Blank, AskRole::Heading, per);
    }
    let ghost after_head = rows_view(rows@);
    if !is_blank(ui.text.as_str()) {
        push_wrapped(&mut rows, ui.text.as_str(), RowMarker::Blank, AskRole::Text, per);
    }
    let ghost after_body = rows_view(rows@);
    let nc = if ui.choices.len() < MAX_ITEMS { ui.choices.len() } else { MAX_ITEMS };
    let mut i: usize = 0;
    while i < nc
        invariant
            0 <= i <= nc <= ui.choices@.len(),
            nc <= MAX_ITEMS,
            rows_view(rows@) == after_body + choice_rows(ui@, i as nat, per as int),
        decreases nc - i,
    {
        let marker = match ui.style {
            ChoiceStyle::Buttons => RowMarker::Choice,
            ChoiceStyle::Bullets => RowMarker::Bullet,
            ChoiceStyle::Numbers => RowMarker::Number(i + 1),
        };
        assert(ui@.choices[i as int] == ui.choices@[i as int]@);
        push_wrapped(&mut rows, ui.choices[i].as_str(), marker, AskRole::Choice(i), per);
        i += 1;
        assert(rows_view(rows@) =~= after_body + choice_rows(ui@, i as nat, per as int));
    }
    let ghost after_choices = rows_view(rows@);
    let nb = if ui.checkboxes.len() < MAX_ITEMS { ui.checkboxes.len() } else { MAX_ITEMS };
    let mut j: usize = 0;
    while j < nb
        invariant
            0 <= j <= nb <= ui.checkboxes@.len(),
            nb <= MAX_ITEMS,
            rows_view(rows@) == after_choices + checkbox_rows(ui@, checked, j as nat, per as int),
        decreases nb - j,
    {
        let on = checked & (1u8 << (j as u8)) != 0;
        assert(ui@.checkboxes[j as int] == ui.checkboxes@[j as int]@);
        push_wrapped(&mut rows, ui.checkboxes[j].as_str(), RowMarker::CheckBox(on), AskRole::CheckBox(j), per);
        j += 1;
        assert(rows_view(rows@) =~= after_choices + checkbox_rows(ui@, checked, j as nat, per as int));
    }
    let ghost after_boxes = rows_view(rows@);
    let buttons = ui.buttons.buttons();
    if buttons.len() > 0 {
        let text = button_row_text(&buttons);
        rows.push(AskRow { text, role: AskRole::Buttons, marker: RowMarker::Blank, indent: 0 });
    }
    assert(rows_view(rows@) =~= ask_rows(ui@, checked, per_line as int));
    let mut cols: usize = 0;
    let mut k: usize = 0;
    while k < rows.len()
        invariant
            0 <= k <= rows@.len(),
            cols == widest_row(rows_view(rows@), k as nat),
        decreases rows@.len() - k,
    {
        let n = rows[k].line().unicode_len();
        if n > cols {
            cols = n;
        }
        k += 1;
    }
    AskLayout { rows, cols, buttons, style: ui.style }
}

} // verus!
