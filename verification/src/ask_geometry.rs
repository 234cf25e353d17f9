//! Pixel geometry of an interactive balloon: where each row and commit button sits.
//!
//! Text is measured by the host (with its fonts, at its scale); this module takes those
//! measurements as integers, together with the scaled paddings, and stacks the rows: a
//! group gap before the first choice, the first check box, and the button row; a heading
//! gap after the heading; a marker column wide enough for every marker, so each marked
//! row's label starts on one edge.

use crate::ask::{rows_view, AskHit, AskLayout, AskRole, Button, RowView};
use crate::balloon_ui::AskRect;
use vstd::prelude::*;

verus! {

/// The largest measurement (and count) the geometry takes, which keeps every sum within
/// `i32`.
pub const GEOM_MAX: i32 = 10000;

/// Scaled paddings, in pixels.
#[derive(Clone, Copy, Debug)]
pub struct AskPads {
    /// Left and right padding inside a commit button.
    pub btn_hpad: i32,
    /// Top and bottom padding inside a commit button.
    pub btn_vpad: i32,
    /// Gap between two commit buttons.
    pub btn_gap: i32,
    /// Gap before the first choice, the first check box and the button row.
    pub group_gap: i32,
    /// Least gap below the heading.
    pub heading_gap: i32,
    /// Gap between the marker column and the labels.
    pub marker_gap: i32,
}

/// One row's box: its top, its height, and where its label starts.
#[derive(Clone, Copy, PartialEq, Eq, Debug, Structural)]
pub struct RowMetric {
    pub dy: i32,
    pub h: i32,
    pub text_dx: i32,
}

/// Everything the paint and the hit-test agree on: per-row boxes, the commit buttons'
/// `(dx, width)` left to right, the marker column's width, and the content size.
#[derive(Debug)]
pub struct AskMetrics {
    pub rows: Vec<RowMetric>,
    pub buttons: Vec<(i32, i32)>,
    pub marker_w: i32,
    pub w: i32,
    pub h: i32,
}

/// The geometry as plain values.
pub struct MetricsView {
    pub rows: Seq<RowMetric>,
    pub buttons: Seq<(i32, i32)>,
    pub marker_w: int,
    pub w: int,
    pub h: int,
}

impl View for AskMetrics {
    type V = MetricsView;

    open spec fn view(&self) -> MetricsView {
        MetricsView {
            rows: self.rows@,
            buttons: self.buttons@,
            marker_w: self.marker_w as int,
            w: self.w as int,
            h: self.h as int,
        }
    }
}

/// The larger of two integers.
pub open spec fn imax(a: int, b: int) -> int {
    if a < b {
        b
    } else {
        a
    }
}

/// The marker column's width over `rows[..n]`: the widest marker need among the marked
/// (indented) rows, 0 if none is marked.
pub open spec fn marker_col(rows: Seq<RowView>, needs: Seq<i32>, n: nat) -> int
    decreases n,
{
    if n == 0 {
        0
    } else {
        let prev = marker_col(rows, needs, (n - 1) as nat);
        if rows[n - 1].indent > 0 {
            imax(prev, needs[n - 1] as int)
        } else {
            prev
        }
    }
}

/// Where the labels of marked rows start: past the marker column and its gap.
pub open spec fn label_indent(marker_w: int, p: AskPads) -> int {
    if marker_w > 0 {
        marker_w + p.marker_gap
    } else {
        0
    }
}

/// The left edge of button `n` in the button row: the widths and gaps of those before it.
pub open spec fn button_dx(labels: Seq<i32>, p: AskPads, n: nat) -> int
    decreases n,
{
    if n == 0 {
        0
    } else {
        button_dx(labels, p, (n - 1) as nat) + labels[n - 1] + 2 * p.btn_hpad + p.btn_gap
    }
}

/// The boxes of the commit buttons, left to right.
pub open spec fn button_boxes(labels: Seq<i32>, p: AskPads) -> Seq<(i32, i32)> {
    Seq::new(
        labels.len(),
        |i: int| (button_dx(labels, p, i as nat) as i32, (labels[i] + 2 * p.btn_hpad) as i32),
    )
}

/// The stacking so far.
pub struct Stack {
    pub y: int,
    pub w: int,
    pub seen_choice: bool,
    pub seen_check: bool,
    pub in_heading: bool,
    pub heading_closed: bool,
    pub rows: Seq<RowMetric>,
    pub buttons: Seq<(i32, i32)>,
}

/// Nothing stacked yet.
pub open spec fn stack_start() -> Stack {
    Stack {
        y: 0,
        w: 0,
        seen_choice: false,
        seen_check: false,
        in_heading: false,
        heading_closed: false,
        rows: Seq::empty(),
        buttons: Seq::empty(),
    }
}

/// Stack one row of measured label width `width` under `st`.
pub open spec fn stack_row(
    st: Stack,
    r: RowView,
    width: int,
    labels: Seq<i32>,
    line_h: int,
    indent: int,
    p: AskPads,
) -> Stack {
    let group = match r.role {
        AskRole::Choice(_) => if st.seen_choice { 0 } else { p.group_gap as int },
        AskRole::CheckBox(_) => if st.seen_check { 0 } else { p.group_gap as int },
        AskRole::Buttons => p.group_gap as int,
        _ => 0,
    };
    let closes = !(r.role is Heading) && st.in_heading && !st.heading_closed;
    let gap = if closes { imax(group, p.heading_gap as int) } else { group };
    let y = st.y + gap;
    let next = Stack {
        seen_choice: st.seen_choice || r.role is Choice,
        seen_check: st.seen_check || r.role is CheckBox,
        in_heading: st.in_heading || r.role is Heading,
        heading_closed: st.heading_closed || closes,
        ..st
    };
    if r.role is Buttons {
        let h = line_h + 2 * p.btn_vpad;
        let span = imax(button_dx(labels, p, labels.len()) - p.btn_gap, 0);
        Stack {
            y: y + h,
            w: imax(st.w, span),
            rows: st.rows.push(RowMetric { dy: y as i32, h: h as i32, text_dx: 0 }),
            buttons: st.buttons + button_boxes(labels, p),
            ..next
        }
    } else {
        let dx = if r.indent > 0 { indent } else { 0 };
        Stack {
            y: y + line_h,
            w: imax(st.w, dx + width),
            rows: st.rows.push(RowMetric { dy: y as i32, h: line_h as i32, text_dx: dx as i32 }),
            ..next
        }
    }
}

/// The stacking of `rows[..n]`.
pub open spec fn stack_rows(
    rows: Seq<RowView>,
    widths: Seq<i32>,
    labels: Seq<i32>,
    line_h: int,
    indent: int,
    p: AskPads,
    n: nat,
) -> Stack
    decreases n,
{
    if n == 0 {
        stack_start()
    } else {
        stack_row(
            stack_rows(rows, widths, labels, line_h, indent, p, (n - 1) as nat),
            rows[n - 1],
            widths[n - 1] as int,
            labels,
            line_h,
            indent,
            p,
        )
    }
}

/// The geometry of a layout whose rows measure `widths` (each label in its role's font),
/// whose marked rows need `needs` of marker column, and whose buttons' labels measure
/// `labels`, with line height `line_h`: the stacked rows and buttons, and the content
/// size, at least 1 by 1.
pub open spec fn spec_ask_metrics(
    rows: Seq<RowView>,
    line_h: int,
    widths: Seq<i32>,
    needs: Seq<i32>,
    labels: Seq<i32>,
    p: AskPads,
) -> MetricsView {
    let mw = marker_col(rows, needs, rows.len());
    let st = stack_rows(rows, widths, labels, line_h, label_indent(mw, p), p, rows.len());
    MetricsView { rows: st.rows, buttons: st.buttons, marker_w: mw, w: imax(st.w, 1), h: imax(st.y, 1) }
}

/// Every value lies in `0..=GEOM_MAX`.
pub open spec fn all_small(v: Seq<i32>) -> bool {
    forall|i: int| 0 <= i < v.len() ==> 0 <= #[trigger] v[i] <= GEOM_MAX
}

/// Every padding lies in `0..=GEOM_MAX`.
pub open spec fn pads_small(p: AskPads) -> bool {
    &&& 0 <= p.btn_hpad <= GEOM_MAX
    &&& 0 <= p.btn_vpad <= GEOM_MAX
    &&& 0 <= p.btn_gap <= GEOM_MAX
    &&& 0 <= p.group_gap <= GEOM_MAX
    &&& 0 <= p.heading_gap <= GEOM_MAX
    &&& 0 <= p.marker_gap <= GEOM_MAX
}

proof fn lemma_marker_col_bound(rows: Seq<RowView>, needs: Seq<i32>, n: nat)
    requires
        n <= needs.len(),
        all_small(needs),
    ensures
        0 <= marker_col(rows, needs, n) <= GEOM_MAX,
    decreases n,
{
    if n > 0 {
        lemma_marker_col_bound(rows, needs, (n - 1) as nat);
    }
}

proof fn lemma_button_dx_bound(labels: Seq<i32>, p: AskPads, n: nat)
    requires
        n <= labels.len(),
        all_small(labels),
        pads_small(p),
    ensures
        0 <= button_dx(labels, p, n) <= n * 40000,
    decreases n,
{
    if n > 0 {
        lemma_button_dx_bound(labels, p, (n - 1) as nat);
    }
}

/// Stack the rows of `layout` as measured: `widths[i]` is row `i`'s label width in its
/// role's font, `needs[i]` the marker column a marked row `i` needs, `labels[k]` the width
/// of button `k`'s label.
pub fn ask_metrics(
    layout: &AskLayout,
    line_h: i32,
    widths: &Vec<i32>,
    needs: &Vec<i32>,
    labels: &Vec<i32>,
    pads: AskPads,
) -> (m: AskMetrics)
    requires
        widths@.len() == layout.rows@.len(),
        needs@.len() == layout.rows@.len(),
        labels@.len() == layout.buttons@.len(),
        layout.rows@.len() <= GEOM_MAX,
        layout.buttons@.len() <= GEOM_MAX,
        0 <= line_h <= GEOM_MAX,
        all_small(widths@),
        all_small(needs@),
        all_small(labels@),
        pads_small(pads),
    ensures
        m@ == spec_ask_metrics(rows_view(layout.rows@), line_h as int, widths@, needs@, labels@, pads),
        metrics_small(m@),
{
    let ghost rv = rows_view(layout.rows@);
    let n = layout.rows.len();
    let mut marker_w: i32 = 0;
    let mut i: usize = 0;
    while i < n
        invariant
            0 <= i <= n,
            n == layout.rows@.len(),
            needs@.len() == n,
            all_small(needs@),
            rv == rows_view(layout.rows@),
            marker_w as int == marker_col(rv, needs@, i as nat),
        decreases n - i,
    {
        proof {
            lemma_marker_col_bound(rv, needs@, i as nat);
        }
        if layout.rows[i].indent > 0 && needs[i] > marker_w {
            marker_w = needs[i];
        }
        i += 1;
    }
    proof {
        lemma_marker_col_bound(rv, needs@, n as nat);
        lemma_button_dx_bound(labels@, pads, labels@.len());
    }
    let indent: i32 = if marker_w > 0 { marker_w + pads.marker_gap } else { 0 };
    let ghost span = imax(button_dx(labels@, pads, labels@.len()) - pads.btn_gap, 0);
    let mut rows: Vec<RowMetric> = Vec::new();
    let mut buttons: Vec<(i32, i32)> = Vec::new();
    let mut y: i32 = 0;
    let mut w: i32 = 0;
    let mut seen_choice = false;
    let mut seen_check = false;
    let mut in_heading = false;
    let mut heading_closed = false;
    let mut k: usize = 0;
    while k < n
        invariant
            0 <= k <= n,
            n == layout.rows@.len(),
            n <= GEOM_MAX,
            widths@.len() == n,
            all_small(widths@),
            all_small(labels@),
            labels@.len() == layout.buttons@.len(),
            labels@.len() <= GEOM_MAX,
            pads_small(pads),
            0 <= line_h <= GEOM_MAX,
            0 <= indent <= 2 * GEOM_MAX,
            rv == rows_view(layout.rows@),
            0 <= button_dx(labels@, pads, labels@.len()) <= labels@.len() * 40000,
            span == imax(button_dx(labels@, pads, labels@.len()) - pads.btn_gap, 0),
            0 <= y <= k * 40000,
            0 <= w <= 400000000,
            forall|q: int| 0 <= q < rows@.len() ==> 0 <= (#[trigger] rows@[q]).dy <= 400000000
                && 0 <= rows@[q].h <= 400000000,
            forall|q: int| 0 <= q < buttons@.len() ==> 0 <= (#[trigger] buttons@[q]).0 <= 400000000
                && 0 <= buttons@[q].1 <= 400000000,
            stack_rows(rv, widths@, labels@, line_h as int, indent as int, pads, k as nat) == (Stack {
                y: y as int,
                w: w as int,
                seen_choice,
                seen_check,
                in_heading,
                heading_closed,
                rows: rows@,
                buttons: buttons@,
            }),
        decreases n - k,
    {
        let role = layout.rows[k].role;
        let mut gap: i32 = match role {
            AskRole::Choice(_) => if seen_choice { 0 } else { pads.group_gap },
            AskRole::CheckBox(_) => if seen_check { 0 } else { pads.group_gap },
            AskRole::Buttons => pads.group_gap,
            _ => 0,
        };
        match role {
            AskRole::Choice(_) => seen_choice = true,
            AskRole::CheckBox(_) => seen_check = true,
            _ => {},
        }
        match role {
            AskRole::Heading => in_heading = true,
            _ => {
                if in_heading && !heading_closed {
                    heading_closed = true;
                    if pads.heading_gap > gap {
                        gap = pads.heading_gap;
                    }
                }
            },
        }
        y = y + gap;
        if role == AskRole::Buttons {
            let h = line_h + 2 * pads.btn_vpad;
            let mut dx: i32 = 0;
            let mut b: usize = 0;
            let ghost before = buttons@;
            while b < labels.len()
                invariant
                    0 <= b <= labels@.len(),
                    labels@.len() <= GEOM_MAX,
                    all_small(labels@),
                    pads_small(pads),
                    dx as int == button_dx(labels@, pads, b as nat),
                    buttons@ == before + button_boxes(labels@, pads).take(b as int),
                    forall|q: int| 0 <= q < buttons@.len() ==> 0 <= (#[trigger] buttons@[q]).0 <= 400000000
                        && 0 <= buttons@[q].1 <= 400000000,
                decreases labels@.len() - b,
            {
                proof {
                    lemma_button_dx_bound(labels@, pads, b as nat);
                }
                let bw = labels[b] + 2 * pads.btn_hpad;
                buttons.push((dx, bw));
                dx = dx + bw + pads.btn_gap;
                b += 1;
                proof {
                    assert(button_boxes(labels@, pads).take(b as int) =~= button_boxes(labels@, pads).take(
                        b - 1,
                    ).push(((button_dx(labels@, pads, (b - 1) as nat)) as i32, bw)));
                }
            }
            proof {
                assert(button_boxes(labels@, pads).take(labels@.len() as int) =~= button_boxes(labels@, pads));
            }
            let used = dx - pads.btn_gap;
            let row_w = if used > 0 { used } else { 0 };
            if row_w > w {
                w = row_w;
            }
            rows.push(RowMetric { dy: y, h, text_dx: 0 });
            y = y + h;
        } else {
            let text_dx = if layout.rows[k].indent > 0 { indent } else { 0 };
            let need = text_dx + widths[k];
            if need > w {
                w = need;
            }
            rows.push(RowMetric { dy: y, h: line_h, text_dx });
            y = y + line_h;
        }
        k += 1;
        proof {
            assert(rv[k - 1] == layout.rows@[k - 1]@);
        }
    }
    AskMetrics {
        rows,
        buttons,
        marker_w,
        w: if w < 1 { 1 } else { w },
        h: if y < 1 { 1 } else { y },
    }
}


/// The end of the run of rows from `j` on that share `role`.
pub open spec fn run_from(rows: Seq<RowView>, role: AskRole, j: int) -> int
    decreases rows.len() - j,
{
    if j < 0 || j >= rows.len() || rows[j].role != role {
        j
    } else {
        run_from(rows, role, j + 1)
    }
}

/// A run ends within the rows, past its start, and covers only rows of its role.
pub proof fn lemma_run_from(rows: Seq<RowView>, role: AskRole, j: int)
    requires
        0 <= j <= rows.len(),
    ensures
        j <= run_from(rows, role, j) <= rows.len(),
        forall|k: int| j <= k < run_from(rows, role, j) ==> #[trigger] rows[k].role == role,
        run_from(rows, role, j) < rows.len() ==> rows[run_from(rows, role, j)].role != role,
    decreases rows.len() - j,
{
    if j < rows.len() && rows[j].role == role {
        lemma_run_from(rows, role, j + 1);
    }
}

/// The clickable regions of the control made of rows `i..j`, all of role `role`, at
/// `(x0, y0)` in rows `row_w` wide: one spanning box for a choice or check box, one box
/// per commit button, none for a heading or text.
pub open spec fn control_rects(
    role: AskRole,
    mrows: Seq<RowMetric>,
    buttons: Seq<Button>,
    mbuttons: Seq<(i32, i32)>,
    x0: int,
    y0: int,
    row_w: int,
    i: int,
    j: int,
) -> Seq<AskRect> {
    let y = (y0 + mrows[i].dy) as i32;
    let h = (mrows[j - 1].dy + mrows[j - 1].h - mrows[i].dy) as i32;
    match role {
        AskRole::Choice(n) => seq![AskRect { hit: AskHit::Choice(n), x: x0 as i32, y, w: row_w as i32, h }],
        AskRole::CheckBox(n) => seq![AskRect { hit: AskHit::CheckBox(n), x: x0 as i32, y, w: row_w as i32, h }],
        AskRole::Buttons => Seq::new(
            if buttons.len() < mbuttons.len() { buttons.len() } else { mbuttons.len() },
            |k: int|
                AskRect {
                    hit: AskHit::Button(buttons[k]),
                    x: (x0 + mbuttons[k].0) as i32,
                    y,
                    w: mbuttons[k].1,
                    h,
                },
        ),
        _ => Seq::empty(),
    }
}

/// The regions of the controls from row `i` on; consecutive rows sharing a role are one
/// control (a wrapped choice, say).
pub open spec fn rects_from(
    rows: Seq<RowView>,
    mrows: Seq<RowMetric>,
    buttons: Seq<Button>,
    mbuttons: Seq<(i32, i32)>,
    x0: int,
    y0: int,
    row_w: int,
    i: int,
) -> Seq<AskRect>
    decreases rows.len() - i,
{
    if i < 0 || i >= rows.len() {
        Seq::empty()
    } else {
        let j = run_from(rows, rows[i].role, i + 1);
        proof {
            lemma_run_from(rows, rows[i].role, i + 1);
        }
        control_rects(rows[i].role, mrows, buttons, mbuttons, x0, y0, row_w, i, j) + rects_from(
            rows,
            mrows,
            buttons,
            mbuttons,
            x0,
            y0,
            row_w,
            j,
        )
    }
}

/// The width of a row's box in a buffer `w` wide with content starting at `x0`.
pub open spec fn row_width(w: int, x0: int) -> int {
    imax(w - 2 * x0, 1)
}

/// Whether every row box and button box of `m` lies in `0..=400_000_000`.
pub open spec fn metrics_small(m: MetricsView) -> bool {
    &&& forall|k: int| 0 <= k < m.rows.len() ==> 0 <= (#[trigger] m.rows[k]).dy <= 400000000
        && 0 <= m.rows[k].h <= 400000000
    &&& forall|k: int| 0 <= k < m.buttons.len() ==> 0 <= (#[trigger] m.buttons[k]).0 <= 400000000
        && 0 <= m.buttons[k].1 <= 400000000
}

/// The clickable regions of `layout` stacked as `m`, painted into a buffer `w` pixels wide
/// whose content starts at `(x0, y0)` (past the padding, and the tail when the balloon
/// sits below the character).
pub fn ask_rects(layout: &AskLayout, m: &AskMetrics, w: u32, x0: i32, y0: i32) -> (out: Vec<AskRect>)
    requires
        m@.rows.len() == layout.rows@.len(),
        metrics_small(m@),
        w <= i32::MAX,
        0 <= x0 <= GEOM_MAX,
        0 <= y0 <= GEOM_MAX,
    ensures
        out@ == rects_from(
            rows_view(layout.rows@),
            m@.rows,
            layout.buttons@,
            m@.buttons,
            x0 as int,
            y0 as int,
            row_width(w as int, x0 as int),
            0,
        ),
{
    let ghost rv = rows_view(layout.rows@);
    let ghost rw = row_width(w as int, x0 as int);
    let wi = w as i32;
    let row_w: i32 = if wi - 2 * x0 > 1 { wi - 2 * x0 } else { 1 };
    let n = layout.rows.len();
    let mut out: Vec<AskRect> = Vec::new();
    let mut i: usize = 0;
    while i < n
        invariant
            0 <= i <= n,
            n == layout.rows@.len(),
            m@.rows.len() == n,
            metrics_small(m@),
            0 <= x0 <= GEOM_MAX,
            0 <= y0 <= GEOM_MAX,
            rv == rows_view(layout.rows@),
            row_w == rw,
            rects_from(rv, m@.rows, layout.buttons@, m@.buttons, x0 as int, y0 as int, rw, 0)
                == out@ + rects_from(rv, m@.rows, layout.buttons@, m@.buttons, x0 as int, y0 as int, rw, i as int),
        decreases n - i,
    {
        let role = layout.rows[i].role;
        proof {
            assert(rv[i as int].role == role);
            lemma_run_from(rv, role, i + 1);
        }
        let mut j = i + 1;
        while j < n && layout.rows[j].role == role
            invariant
                i < j <= n,
                n == layout.rows@.len(),
                rv == rows_view(layout.rows@),
                run_from(rv, role, i + 1) == run_from(rv, role, j as int),
            decreases n - j,
        {
            assert(rv[j as int].role == layout.rows@[j as int].role);
            j += 1;
        }
        proof {
            if j < n {
                assert(rv[j as int].role == layout.rows@[j as int].role);
            }
        }
        let first = m.rows[i];
        let last = m.rows[j - 1];
        let y = y0 + first.dy;
        let h = last.dy + last.h - first.dy;
        let ghost here = control_rects(role, m@.rows, layout.buttons@, m@.buttons, x0 as int, y0 as int, rw, i as int, j as int);
        let ghost before = out@;
        match role {
            AskRole::Choice(c) => {
                out.push(AskRect { hit: AskHit::Choice(c), x: x0, y, w: row_w, h });
            },
            AskRole::CheckBox(c) => {
                out.push(AskRect { hit: AskHit::CheckBox(c), x: x0, y, w: row_w, h });
            },
            AskRole::Buttons => {
                let cnt = if layout.buttons.len() < m.buttons.len() { layout.buttons.len() } else { m.buttons.len() };
                let mut b: usize = 0;
                while b < cnt
                    invariant
                        0 <= b <= cnt,
                        cnt <= layout.buttons@.len(),
                        cnt <= m@.buttons.len(),
                        cnt == here.len(),
                        metrics_small(m@),
                        0 <= x0 <= GEOM_MAX,
                        here == control_rects(role, m@.rows, layout.buttons@, m@.buttons, x0 as int, y0 as int, rw, i as int, j as int),
                        role == AskRole::Buttons,
                        y as int == (y0 + m@.rows[i as int].dy) as i32,
                        h as int == (m@.rows[j - 1].dy + m@.rows[j - 1].h - m@.rows[i as int].dy) as i32,
                        out@ == before + here.take(b as int),
                    decreases cnt - b,
                {
                    let (dx, bw) = m.buttons[b];
                    out.push(AskRect { hit: AskHit::Button(layout.buttons[b]), x: x0 + dx, y, w: bw, h });
                    b += 1;
                    proof {
                        assert(here.take(b as int) =~= here.take(b - 1).push(here[b - 1]));
                    }
                }
                proof {
                    assert(here.take(cnt as int) =~= here);
                }
            },
            _ => {},
        }
        proof {
            assert(out@ =~= before + here);
            assert(rects_from(rv, m@.rows, layout.buttons@, m@.buttons, x0 as int, y0 as int, rw, i as int)
                == here + rects_from(rv, m@.rows, layout.buttons@, m@.buttons, x0 as int, y0 as int, rw, j as int));
            assert(before + (here + rects_from(rv, m@.rows, layout.buttons@, m@.buttons, x0 as int, y0 as int, rw, j as int))
                =~= (before + here) + rects_from(rv, m@.rows, layout.buttons@, m@.buttons, x0 as int, y0 as int, rw, j as int));
        }
        i = j;
    }
    proof {
        assert(out@ + Seq::<AskRect>::empty() =~= out@);
    }
    out
}

/// The first of `rects[k..]` that contains `(px, py)`, by what a click there means.
pub open spec fn first_hit(rects: Seq<AskRect>, px: int, py: int, k: int) -> Option<AskHit>
    decreases rects.len() - k,
{
    if k < 0 || k >= rects.len() {
        None
    } else if px >= rects[k].x && py >= rects[k].y && px < rects[k].x + rects[k].w && py
        < rects[k].y + rects[k].h {
        Some(rects[k].hit)
    } else {
        first_hit(rects, px, py, k + 1)
    }
}

/// What a click at `(px, py)` in the painted buffer means: the first region containing
/// it, `None` over a heading, text or padding.
pub fn ask_hit_test(layout: &AskLayout, m: &AskMetrics, w: u32, x0: i32, y0: i32, px: i32, py: i32) -> (r: Option<
    AskHit,
>)
    requires
        m@.rows.len() == layout.rows@.len(),
        metrics_small(m@),
        w <= i32::MAX,
        0 <= x0 <= GEOM_MAX,
        0 <= y0 <= GEOM_MAX,
    ensures
        r == first_hit(
            rects_from(
                rows_view(layout.rows@),
                m@.rows,
                layout.buttons@,
                m@.buttons,
                x0 as int,
                y0 as int,
                row_width(w as int, x0 as int),
                0,
            ),
            px as int,
            py as int,
            0,
        ),
{
    let rects = ask_rects(layout, m, w, x0, y0);
    let ghost all = rects_from(
        rows_view(layout.rows@),
        m@.rows,
        layout.buttons@,
        m@.buttons,
        x0 as int,
        y0 as int,
        row_width(w as int, x0 as int),
        0,
    );
    let mut k: usize = 0;
    while k < rects.len()
        invariant
            0 <= k <= rects@.len(),
            rects@ == all,
            all == rects_from(
                rows_view(layout.rows@),
                m@.rows,
                layout.buttons@,
                m@.buttons,
                x0 as int,
                y0 as int,
                row_width(w as int, x0 as int),
                0,
            ),
            first_hit(rects@, px as int, py as int, 0) == first_hit(rects@, px as int, py as int, k as int),
        decreases rects@.len() - k,
    {
        if rects[k].contains(px, py) {
            assert(first_hit(rects@, px as int, py as int, k as int) == Some(rects@[k as int].hit));
            return Some(rects[k].hit);
        }
        k += 1;
    }
    None
}

} // verus!
