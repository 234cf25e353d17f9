//! Word-balloon text layout: wrap display words into lines, breaking only at word
//! boundaries. Pure text arithmetic; drawing the balloon lives with the renderer.

use crate::textutil::{push_char, push_str};
use vstd::prelude::*;

verus! {

/// Wrapped balloon text plus its size in character cells.
#[derive(Clone, Debug, Default, PartialEq, Eq)]
pub struct BalloonLayout {
    /// Lines of text, already wrapped.
    pub lines: Vec<String>,
    /// Widest line, in characters (at most `per_line` unless a single word is longer).
    pub cols: usize,
    /// Number of lines.
    pub rows: usize,
}

/// The greedy wrap of `words[..n]`: the finished lines and the line being filled. A
/// word joins the current line (after a space) when the result stays within `per_line`
/// characters, starts the line when it is empty, and otherwise closes it.
pub open spec fn wrap_state(words: Seq<Seq<char>>, per_line: int, n: nat) -> (
    Seq<Seq<char>>,
    Seq<char>,
)
    decreases n,
{
    if n == 0 {
        (Seq::empty(), Seq::empty())
    } else {
        let (lines, cur) = wrap_state(words, per_line, (n - 1) as nat);
        let w = words[n - 1];
        if cur.len() == 0 {
            (lines, cur + w)
        } else if cur.len() + 1 + w.len() <= per_line {
            (lines, cur.push(' ') + w)
        } else {
            (lines.push(cur), w)
        }
    }
}

/// The lines `words` wrap to at `per_line` characters (clamped to at least 1).
pub open spec fn wrapped(words: Seq<Seq<char>>, per_line: int) -> Seq<Seq<char>> {
    let per = if per_line < 1 { 1 } else { per_line };
    let (lines, cur) = wrap_state(words, per, words.len());
    if cur.len() == 0 {
        lines
    } else {
        lines.push(cur)
    }
}

/// The length of the longest of `lines[..n]`, 0 when there are none.
pub open spec fn widest(lines: Seq<Seq<char>>, n: nat) -> int
    decreases n,
{
    if n == 0 {
        0
    } else {
        let w = widest(lines, (n - 1) as nat);
        if lines[n - 1].len() > w {
            lines[n - 1].len() as int
        } else {
            w
        }
    }
}

/// The characters of each line.
pub open spec fn lines_view(v: Seq<String>) -> Seq<Seq<char>> {
    Seq::new(v.len(), |i: int| v[i]@)
}

/// A layout whose size fields describe its lines.
pub open spec fn layout_of(l: &BalloonLayout, lines: Seq<Seq<char>>) -> bool {
    &&& lines_view(l.lines@) == lines
    &&& l.rows == lines.len()
    &&& l.cols == widest(lines, lines.len())
}

proof fn lemma_widest_bound(lines: Seq<Seq<char>>, n: nat, k: int)
    requires
        n <= lines.len(),
        0 <= k < n,
    ensures
        lines[k].len() <= widest(lines, n),
        widest(lines, n) >= 0,
    decreases n,
{
    if k < n - 1 {
        lemma_widest_bound(lines, (n - 1) as nat, k);
    }
}

proof fn lemma_widest_nonneg(lines: Seq<Seq<char>>, n: nat)
    ensures
        widest(lines, n) >= 0,
    decreases n,
{
    if n > 0 {
        lemma_widest_nonneg(lines, (n - 1) as nat);
    }
}

/// The widest of a list of lines.
fn widest_of(lines: &Vec<String>) -> (w: usize)
    ensures
        w == widest(lines_view(lines@), lines@.len()),
{
    let ghost lv = lines_view(lines@);
    let mut w: usize = 0;
    let mut i: usize = 0;
    while i < lines.len()
        invariant
            0 <= i <= lines@.len(),
            lv == lines_view(lines@),
            w == widest(lv, i as nat),
        decreases lines@.len() - i,
    {
        let n = lines[i].unicode_len();
        if n > w {
            w = n;
        }
        i += 1;
    }
    w
}

/// Greedily wrap `words` into lines of at most `per_line` characters, never splitting a
/// word (a word longer than `per_line` gets its own overflowing line). Words are joined
/// with single spaces; `per_line` is clamped to at least 1.
pub fn wrap_words(words: &[String], per_line: usize) -> (l: BalloonLayout)
    ensures
        layout_of(&l, wrapped(lines_view(words@), per_line as int)),
{
    let per = if per_line < 1 { 1 } else { per_line };
    let ghost ws = lines_view(words@);
    let mut lines: Vec<String> = Vec::new();
    let mut current = String::new();
    let mut i: usize = 0;
    while i < words.len()
        invariant
            0 <= i <= words@.len(),
            ws == lines_view(words@),
            per >= 1,
            (lines_view(lines@), current@) == wrap_state(ws, per as int, i as nat),
        decreases words@.len() - i,
    {
        let word = words[i].as_str();
        assert(word@ == ws[i as int]);
        let cur_len = current.unicode_len();
        let word_len = word.unicode_len();
        if cur_len == 0 {
            push_str(&mut current, word);
        } else if word_len < per && cur_len < per - word_len {
            push_char(&mut current, ' ');
            push_str(&mut current, word);
        } else {
            lines.push(current);
            current = String::new();
            push_str(&mut current, word);
            assert(lines_view(lines@) =~= wrap_state(ws, per as int, (i + 1) as nat).0);
        }
        i += 1;
        assert(current@ =~= wrap_state(ws, per as int, i as nat).1);
        assert(lines_view(lines@) =~= wrap_state(ws, per as int, i as nat).0);
    }
    if current.unicode_len() > 0 {
        lines.push(current);
    }
    assert(lines_view(lines@) =~= wrapped(ws, per_line as int));
    let cols = widest_of(&lines);
    let rows = lines.len();
    BalloonLayout { lines, cols, rows }
}

/// Wrap `words` like [`wrap_words`] but keep only the last `max_rows` lines (clamped to
/// at least 1): the most recent word is always on the last line, so a fixed-height
/// balloon scrolls to follow the speech.
pub fn wrap_last_rows(words: &[String], per_line: usize, max_rows: usize) -> (l: BalloonLayout)
    ensures
        ({
            let all = wrapped(lines_view(words@), per_line as int);
            let keep = if max_rows < 1 { 1 } else { max_rows as int };
            layout_of(
                &l,
                if all.len() > keep {
                    all.subrange(all.len() - keep, all.len() as int)
                } else {
                    all
                },
            )
        }),
{
    let mut l = wrap_words(words, per_line);
    let keep = if max_rows < 1 { 1 } else { max_rows };
    if l.lines.len() > keep {
        let drop = l.lines.len() - keep;
        let ghost all = l.lines@;
        let lines = l.lines.split_off(drop);
        assert(lines_view(lines@) =~= lines_view(all).subrange(drop as int, all.len() as int));
        let cols = widest_of(&lines);
        let rows = lines.len();
        BalloonLayout { lines, cols, rows }
    } else {
        l
    }
}

/// No line of a wrap is wider than the limit unless it is a single word that is: a word
/// is never split, and words only share a line when they fit.
pub proof fn lemma_wrap_fits(words: Seq<Seq<char>>, per_line: int, n: nat)
    requires
        per_line >= 1,
        n <= words.len(),
    ensures
        forall|k: int|
            0 <= k < wrap_state(words, per_line, n).0.len() ==> {
                let line = #[trigger] wrap_state(words, per_line, n).0[k];
                line.len() <= per_line || exists|j: int| 0 <= j < n && line == words[j]
            },
        ({
            let cur = wrap_state(words, per_line, n).1;
            cur.len() <= per_line || exists|j: int| 0 <= j < n && cur == words[j]
        }),
    decreases n,
{
    if n > 0 {
        lemma_wrap_fits(words, per_line, (n - 1) as nat);
        let (lines, cur) = wrap_state(words, per_line, (n - 1) as nat);
        let w = words[n - 1];
        if cur.len() == 0 {
            assert(cur + w =~= w);
        }
        assert forall|k: int| 0 <= k < wrap_state(words, per_line, n).0.len() implies {
            let line = #[trigger] wrap_state(words, per_line, n).0[k];
            line.len() <= per_line || exists|j: int| 0 <= j < n && line == words[j]
        } by {
            if k < lines.len() {
                let line = lines[k];
                if line.len() > per_line {
                    let j = choose|j: int| 0 <= j < n - 1 && line == words[j];
                    assert(0 <= j < n && line == words[j]);
                }
            } else {
                if cur.len() > per_line {
                    let j = choose|j: int| 0 <= j < n - 1 && cur == words[j];
                    assert(0 <= j < n && cur == words[j]);
                }
            }
        }
        let c2 = wrap_state(words, per_line, n).1;
        if c2.len() > per_line {
            if cur.len() == 0 || !(cur.len() + 1 + w.len() <= per_line) {
                assert(c2 == words[n - 1]);
            }
        }
    }
}

} // verus!
