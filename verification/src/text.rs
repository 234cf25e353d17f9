//! Speech-text markup for `Speak`/`Think` strings.
//!
//! A `Speak` string mixes balloon text with inline backslash tags. Parsing splits it into
//! the display words shown in the balloon and an ordered speech stream of words and
//! directives for a text-to-speech backend.
//!
//! The grammar: `\Tag\` and `\Tag=value\`, an `=` separator, case-insensitive three-letter
//! tag names, no whitespace inside the delimiters, `\\` for a literal backslash, `\"` for a
//! literal quote. A backslash that does not start a known tag is ordinary text.

use crate::textutil::{
    char_is_space, chars_of, is_space, push_char, push_str, string_from_chars, string_of,
};
use vstd::prelude::*;

verus! {

/// A parsed inline directive from the speech stream.
///
/// `Deemphasize`, `Command`, `Engine`, `Pronounce` and `Other` are not part of the
/// Microsoft Agent tag set and are never produced by [`parse_speech`]; they remain for
/// callers that synthesize directives of their own.
#[derive(Debug, Clone, PartialEq, Eq)]
pub enum Tag {
    /// `\Mrk=N`: bookmark; the engine raises a callback when speech reaches it.
    Bookmark(i64),
    /// `\Pau=N`: pause N milliseconds.
    Pause(u32),
    /// `\Emp`: emphasize the next word.
    Emphasize,
    /// De-emphasize.
    Deemphasize,
    /// `\Vol=N`: volume, 0..=65535.
    Volume(u32),
    /// `\Spd=N`: speaking speed (words per minute).
    Speed(u32),
    /// `\Pit=N`: pitch (Hz).
    Pitch(u32),
    /// `\Rst`: reset voice parameters to default.
    Reset,
    /// `\Lst`: repeat the last spoken string.
    RepeatLast,
    /// `\Ctx=...`: speaking context (numbers/dates normalization).
    Context(String),
    /// `\Chr=...`: voice character (e.g. `Normal`, `Whisper`).
    Voice(String),
    /// A speaking command or context hint.
    Command(String),
    /// A direct engine control string.
    Engine(String),
    /// A pronunciation directive.
    Pronounce { kind: String, value: String },
    /// A recognized but unmodeled tag.
    Other { name: String, value: Option<String> },
}

/// A directive as plain values.
pub enum TagView {
    Bookmark(i64),
    Pause(u32),
    Emphasize,
    Deemphasize,
    Volume(u32),
    Speed(u32),
    Pitch(u32),
    Reset,
    RepeatLast,
    Context(Seq<char>),
    Voice(Seq<char>),
    Command(Seq<char>),
    Engine(Seq<char>),
    Pronounce { kind: Seq<char>, value: Seq<char> },
    Other { name: Seq<char>, value: Option<Seq<char>> },
}

impl View for Tag {
    type V = TagView;

    open spec fn view(&self) -> TagView {
        match self {
            Tag::Bookmark(n) => TagView::Bookmark(*n),
            Tag::Pause(n) => TagView::Pause(*n),
            Tag::Emphasize => TagView::Emphasize,
            Tag::Deemphasize => TagView::Deemphasize,
            Tag::Volume(n) => TagView::Volume(*n),
            Tag::Speed(n) => TagView::Speed(*n),
            Tag::Pitch(n) => TagView::Pitch(*n),
            Tag::Reset => TagView::Reset,
            Tag::RepeatLast => TagView::RepeatLast,
            Tag::Context(s) => TagView::Context(s@),
            Tag::Voice(s) => TagView::Voice(s@),
            Tag::Command(s) => TagView::Command(s@),
            Tag::Engine(s) => TagView::Engine(s@),
            Tag::Pronounce { kind, value } => TagView::Pronounce { kind: kind@, value: value@ },
            Tag::Other { name, value } => TagView::Other {
                name: name@,
                value: match value {
                    Some(v) => Some(v@),
                    None => None,
                },
            },
        }
    }
}

/// One element of the ordered speech stream.
#[derive(Debug, Clone, PartialEq, Eq)]
pub enum SpeechItem {
    /// A spoken word.
    Word(String),
    /// An inline directive.
    Tag(Tag),
}

/// A speech item as plain values.
pub enum ItemView {
    Word(Seq<char>),
    Tag(TagView),
}

impl View for SpeechItem {
    type V = ItemView;

    open spec fn view(&self) -> ItemView {
        match self {
            SpeechItem::Word(w) => ItemView::Word(w@),
            SpeechItem::Tag(t) => ItemView::Tag(t@),
        }
    }
}

/// The result of parsing a `Speak` string.
#[derive(Debug, Clone, Default, PartialEq, Eq)]
pub struct ParsedSpeech {
    /// Words shown in the balloon, in order.
    pub display_words: Vec<String>,
    /// Ordered stream of spoken words and directives.
    pub speech: Vec<SpeechItem>,
    /// Each `\Mrk=N` bookmark paired with the number of display words that precede it, so
    /// a runtime can raise the bookmark as the balloon reveals past that word.
    pub bookmark_at: Vec<(i64, usize)>,
}

/// A parse result as plain values.
pub struct SpeechView {
    pub display: Seq<Seq<char>>,
    pub speech: Seq<ItemView>,
    pub marks: Seq<(i64, usize)>,
}

/// The characters of each string.
pub open spec fn words_view(v: Seq<String>) -> Seq<Seq<char>> {
    Seq::new(v.len(), |i: int| v[i]@)
}

/// The views of speech items.
pub open spec fn items_view(v: Seq<SpeechItem>) -> Seq<ItemView> {
    Seq::new(v.len(), |i: int| v[i]@)
}

impl View for ParsedSpeech {
    type V = SpeechView;

    open spec fn view(&self) -> SpeechView {
        SpeechView {
            display: words_view(self.display_words@),
            speech: items_view(self.speech@),
            marks: self.bookmark_at@,
        }
    }
}

/// Nothing parsed yet.
pub open spec fn no_speech() -> SpeechView {
    SpeechView { display: Seq::empty(), speech: Seq::empty(), marks: Seq::empty() }
}

/// Which stream(s) a run of text contributes its words to.
#[derive(Clone, Copy, PartialEq, Eq, Structural)]
pub enum Sink {
    /// Ordinary text: shown in the balloon and spoken.
    Both,
    /// The spoken half of a `\Map\`: spoken, never displayed.
    SpeechOnly,
    /// The balloon half of a `\Map\`: displayed, never spoken.
    DisplayOnly,
}

/// Emit the word built so far, if any, to the streams `sink` selects.
pub open spec fn flush(out: SpeechView, word: Seq<char>, sink: Sink) -> SpeechView {
    if word.len() == 0 {
        out
    } else {
        SpeechView {
            display: if sink != Sink::SpeechOnly {
                out.display.push(word)
            } else {
                out.display
            },
            speech: if sink != Sink::DisplayOnly {
                out.speech.push(ItemView::Word(word))
            } else {
                out.speech
            },
            marks: out.marks,
        }
    }
}

/// Append a directive, noting where a bookmark falls among the display words.
pub open spec fn push_tag(out: SpeechView, tag: TagView) -> SpeechView {
    SpeechView {
        display: out.display,
        speech: out.speech.push(ItemView::Tag(tag)),
        marks: match tag {
            TagView::Bookmark(id) => out.marks.push((id, out.display.len() as usize)),
            _ => out.marks,
        },
    }
}

/// Emit the whitespace-separated words of `text[..n]`, the word in progress last.
pub open spec fn words_state(text: Seq<char>, n: nat, out: SpeechView, sink: Sink) -> (
    SpeechView,
    Seq<char>,
)
    decreases n,
{
    if n == 0 {
        (out, Seq::empty())
    } else {
        let (o, w) = words_state(text, (n - 1) as nat, out, sink);
        if is_space(text[n - 1]) {
            (flush(o, w, sink), Seq::empty())
        } else {
            (o, w.push(text[n - 1]))
        }
    }
}

/// Emit every whitespace-separated word of `text`.
pub open spec fn push_words(out: SpeechView, text: Seq<char>, sink: Sink) -> SpeechView {
    let (o, w) = words_state(text, text.len(), out, sink);
    flush(o, w, sink)
}


/// Whether every character is an ASCII digit.
pub open spec fn all_digits(s: Seq<char>) -> bool {
    forall|i: int| 0 <= i < s.len() ==> '0' <= #[trigger] s[i] <= '9'
}

/// The value of a string of decimal digits.
pub open spec fn digits_value(s: Seq<char>) -> int
    decreases s.len(),
{
    if s.len() == 0 {
        0
    } else {
        digits_value(s.drop_last()) * 10 + (s.last() as int - '0' as int)
    }
}

/// `i64`'s decimal syntax: an optional `+` or `-`, then one or more ASCII digits, the
/// value within range.
pub open spec fn parse_int(s: Seq<char>) -> Option<i64> {
    let signed = s.len() > 0 && (s[0] == '+' || s[0] == '-');
    let ds = if signed {
        s.drop_first()
    } else {
        s
    };
    if ds.len() == 0 || !all_digits(ds) {
        None
    } else {
        let v = if signed && s[0] == '-' {
            -digits_value(ds)
        } else {
            digits_value(ds)
        };
        if i64::MIN <= v <= i64::MAX {
            Some(v as i64)
        } else {
            None
        }
    }
}

proof fn lemma_digits_grow(s: Seq<char>, k: int)
    requires
        0 <= k <= s.len(),
        all_digits(s),
    ensures
        0 <= digits_value(s.subrange(0, k)) <= digits_value(s),
    decreases s.len() - k,
{
    if k < s.len() {
        lemma_digits_grow(s, k + 1);
        assert(s.subrange(0, k + 1).drop_last() =~= s.subrange(0, k));
    } else {
        assert(s.subrange(0, k) =~= s);
    }
    lemma_digits_nonneg(s.subrange(0, k));
}

proof fn lemma_digits_nonneg(s: Seq<char>)
    requires
        all_digits(s),
    ensures
        digits_value(s) >= 0,
    decreases s.len(),
{
    if s.len() > 0 {
        lemma_digits_nonneg(s.drop_last());
    }
}

/// Parse `s[from..]` as `i64` decimal syntax.
#[verifier::loop_isolation(false)]
fn parse_int_exec(s: &Vec<char>, from: usize) -> (r: Option<i64>)
    requires
        from <= s@.len(),
    ensures
        r == parse_int(s@.subrange(from as int, s@.len() as int)),
{
    let ghost t = s@.subrange(from as int, s@.len() as int);
    let mut i = from;
    let mut neg = false;
    if i < s.len() && (s[i] == '+' || s[i] == '-') {
        neg = s[i] == '-';
        i += 1;
    }
    let ghost ds = s@.subrange(i as int, s@.len() as int);
    assert(ds =~= (if t.len() > 0 && (t[0] == '+' || t[0] == '-') { t.drop_first() } else { t }));
    if i >= s.len() {
        return None;
    }
    let limit: u128 = 0x8000_0000_0000_0000;
    let mut acc: u128 = 0;
    let start = i;
    while i < s.len()
        invariant
            start <= i <= s@.len(),
            start < s@.len(),
            ds == s@.subrange(start as int, s@.len() as int),
            all_digits(s@.subrange(start as int, i as int)),
            acc == digits_value(s@.subrange(start as int, i as int)),
            acc <= limit,
        decreases s@.len() - i,
    {
        let c = s[i];
        if !('0' <= c && c <= '9') {
            proof {
                assert(ds[i - start] == c);
                assert(!all_digits(ds));
            }
            return None;
        }
        assert(s@.subrange(start as int, (i + 1) as int).drop_last() =~= s@.subrange(start as int, i as int));
        acc = acc * 10 + (c as u32 - '0' as u32) as u128;
        i += 1;
        assert(all_digits(s@.subrange(start as int, i as int)));
        if acc > limit {
            proof {
                assert(ds.subrange(0, (i - start) as int) =~= s@.subrange(start as int, i as int));
                if all_digits(ds) {
                    lemma_digits_grow(ds, (i - start) as int);
                }
            }
            return None;
        }
    }
    assert(ds =~= s@.subrange(start as int, i as int));
    if neg {
        if acc == limit {
            Some(-0x7FFF_FFFF_FFFF_FFFF - 1)
        } else {
            Some(-(acc as i64))
        }
    } else {
        if acc < limit {
            Some(acc as i64)
        } else {
            None
        }
    }
}

/// `s` without leading whitespace.
pub open spec fn trim_start(s: Seq<char>) -> Seq<char>
    decreases s.len(),
{
    if s.len() > 0 && is_space(s[0]) {
        trim_start(s.drop_first())
    } else {
        s
    }
}

/// `s` without trailing whitespace.
pub open spec fn trim_end(s: Seq<char>) -> Seq<char>
    decreases s.len(),
{
    if s.len() > 0 && is_space(s.last()) {
        trim_end(s.drop_last())
    } else {
        s
    }
}

/// A numeric tag parameter: whitespace-trimmed `i64` syntax, clamped to `0..=u32::MAX`.
pub open spec fn number(v: Seq<char>) -> Option<u32> {
    match parse_int(trim_end(trim_start(v))) {
        None => None,
        Some(n) => Some(
            if n < 0 {
                0u32
            } else if n > u32::MAX {
                u32::MAX
            } else {
                n as u32
            },
        ),
    }
}

/// Trim whitespace from both ends.
fn trim_chars(v: &Vec<char>) -> (t: Vec<char>)
    ensures
        t@ == trim_end(trim_start(v@)),
{
    let mut a: usize = 0;
    assert(v@.subrange(0, v@.len() as int) =~= v@);
    while a < v.len() && char_is_space(v[a])
        invariant
            0 <= a <= v@.len(),
            trim_start(v@) == trim_start(v@.subrange(a as int, v@.len() as int)),
        decreases v@.len() - a,
    {
        assert(v@.subrange(a as int, v@.len() as int).drop_first() =~= v@.subrange((a + 1) as int, v@.len() as int));
        a += 1;
    }
    let ghost ts = v@.subrange(a as int, v@.len() as int);
    assert(trim_start(v@) == ts);
    let mut b: usize = v.len();
    while b > a && char_is_space(v[b - 1])
        invariant
            a <= b <= v@.len(),
            trim_end(ts) == trim_end(v@.subrange(a as int, b as int)),
        decreases b,
    {
        assert(v@.subrange(a as int, b as int).drop_last() =~= v@.subrange(a as int, (b - 1) as int));
        b -= 1;
    }
    let mut t: Vec<char> = Vec::new();
    let mut k = a;
    while k < b
        invariant
            a <= k <= b <= v@.len(),
            t@ == v@.subrange(a as int, k as int),
        decreases b - k,
    {
        t.push(v[k]);
        k += 1;
        assert(t@ =~= v@.subrange(a as int, k as int));
    }
    t
}

/// Parse a numeric tag parameter.
fn number_exec(v: &Vec<char>) -> (r: Option<u32>)
    ensures
        r == number(v@),
{
    let t = trim_chars(v);
    assert(t@.subrange(0, t@.len() as int) =~= t@);
    match parse_int_exec(&t, 0) {
        None => None,
        Some(n) => Some(
            if n < 0 {
                0
            } else if n > 0xFFFF_FFFF {
                0xFFFF_FFFF
            } else {
                n as u32
            },
        ),
    }
}

/// One layer of surrounding double quotes stripped, as string values are written
/// (`\Chr="Whisper"\`).
pub open spec fn unquote(s: Seq<char>) -> Seq<char> {
    if s.len() >= 2 && s[0] == '"' && s.last() == '"' {
        s.subrange(1, s.len() - 1)
    } else {
        s
    }
}

fn unquote_exec(v: Vec<char>) -> (r: Vec<char>)
    ensures
        r@ == unquote(v@),
{
    let n = v.len();
    if n >= 2 && v[0] == '"' && v[n - 1] == '"' {
        let mut t: Vec<char> = Vec::new();
        let mut k: usize = 1;
        while k < n - 1
            invariant
                n == v@.len(),
                1 <= k <= n - 1,
                t@ == v@.subrange(1, k as int),
            decreases n - 1 - k,
        {
            t.push(v[k]);
            k += 1;
            assert(t@ =~= v@.subrange(1, k as int));
        }
        t
    } else {
        v
    }
}

/// A tag's value: the characters from `end` to the closing backslash, a doubled
/// backslash standing for one; `None` if the input ends first.
pub open spec fn scan_value(chars: Seq<char>, end: int, raw: Seq<char>) -> Option<(Seq<char>, int)>
    decreases chars.len() - end,
{
    if end < 0 || end >= chars.len() {
        None
    } else if chars[end] == '\\' {
        if end + 1 < chars.len() && chars[end + 1] == '\\' {
            scan_value(chars, end + 2, raw.push('\\'))
        } else {
            Some((raw, end))
        }
    } else {
        scan_value(chars, end + 1, raw.push(chars[end]))
    }
}

fn scan_value_exec(chars: &Vec<char>, start: usize) -> (r: Option<(Vec<char>, usize)>)
    ensures
        match scan_value(chars@, start as int, Seq::empty()) {
            Some((raw, end)) => r matches Some((v, e)) && v@ == raw && e == end,
            None => r is None,
        },
{
    let mut raw: Vec<char> = Vec::new();
    let mut end = start;
    loop
        invariant
            scan_value(chars@, start as int, Seq::empty()) == scan_value(chars@, end as int, raw@),
            end >= start,
        decreases chars@.len() - end,
    {
        if end >= chars.len() {
            return None;
        }
        let c = chars[end];
        if c == '\\' {
            if end + 1 < chars.len() && chars[end + 1] == '\\' {
                raw.push('\\');
                end += 2;
            } else {
                return Some((raw, end));
            }
        } else {
            raw.push(c);
            end += 1;
        }
    }
}

/// `s` with each `""` read as one quote, scanning left to right.
pub open spec fn dedup_quotes(s: Seq<char>) -> Seq<char>
    decreases s.len(),
{
    if s.len() >= 2 && s[0] == '"' && s[1] == '"' {
        seq!['"'] + dedup_quotes(s.subrange(2, s.len() as int))
    } else if s.len() == 0 {
        Seq::empty()
    } else {
        seq![s[0]] + dedup_quotes(s.drop_first())
    }
}

proof fn lemma_dedup_len(s: Seq<char>)
    ensures
        dedup_quotes(s).len() <= s.len(),
    decreases s.len(),
{
    if s.len() >= 2 && s[0] == '"' && s[1] == '"' {
        lemma_dedup_len(s.subrange(2, s.len() as int));
    } else if s.len() > 0 {
        lemma_dedup_len(s.drop_first());
    }
}

fn dedup_quotes_exec(v: &Vec<char>) -> (r: String)
    ensures
        r@ == dedup_quotes(v@),
{
    let mut out = String::new();
    let mut i: usize = 0;
    assert(v@.subrange(0, v@.len() as int) =~= v@);
    assert(out@ + dedup_quotes(v@) =~= dedup_quotes(v@));
    while i < v.len()
        invariant
            0 <= i <= v@.len(),
            out@ + dedup_quotes(v@.subrange(i as int, v@.len() as int)) == dedup_quotes(v@),
        decreases v@.len() - i,
    {
        let ghost rest = v@.subrange(i as int, v@.len() as int);
        if i + 1 < v.len() && v[i] == '"' && v[i + 1] == '"' {
            assert(rest.subrange(2, rest.len() as int) =~= v@.subrange((i + 2) as int, v@.len() as int));
            push_char(&mut out, '"');
            i += 2;
        } else {
            assert(rest.drop_first() =~= v@.subrange((i + 1) as int, v@.len() as int));
            push_char(&mut out, v[i]);
            i += 1;
        }
        assert(out@ + dedup_quotes(v@.subrange(i as int, v@.len() as int)) =~= dedup_quotes(v@));
    }
    assert(v@.subrange(i as int, v@.len() as int) =~= Seq::<char>::empty());
    assert(out@ =~= out@ + dedup_quotes(Seq::<char>::empty()));
    out
}

/// The rest of a quoted `\Map` parameter from `i`: up to the first quote followed by
/// `term`, doubled quotes unescaped; the index past `term`.
pub open spec fn map_close(chars: Seq<char>, i: int, term: char, text: Seq<char>) -> Option<
    (Seq<char>, int),
>
    decreases chars.len() - i,
{
    if i < 0 || i >= chars.len() {
        None
    } else if chars[i] == '"' && i + 1 < chars.len() && chars[i + 1] == term {
        Some((dedup_quotes(text), i + 2))
    } else {
        map_close(chars, i + 1, term, text.push(chars[i]))
    }
}

/// One `"..."`-quoted `\Map` parameter at `start`, closed by a quote and `term`.
pub open spec fn map_param(chars: Seq<char>, start: int, term: char) -> Option<(Seq<char>, int)> {
    if 0 <= start < chars.len() && chars[start] == '"' {
        map_close(chars, start + 1, term, Seq::empty())
    } else {
        None
    }
}

proof fn lemma_map_close(chars: Seq<char>, i: int, term: char, text: Seq<char>)
    requires
        0 <= i,
    ensures
        map_close(chars, i, term, text) matches Some((t, next)) ==> i < next <= chars.len()
            && t.len() <= text.len() + (next - i),
    decreases chars.len() - i,
{
    if 0 <= i < chars.len() {
        if chars[i] == '"' && i + 1 < chars.len() && chars[i + 1] == term {
            lemma_dedup_len(text);
        } else {
            lemma_map_close(chars, i + 1, term, text.push(chars[i]));
        }
    }
}

fn map_param_exec(chars: &Vec<char>, start: usize, term: char) -> (r: Option<(String, usize)>)
    ensures
        match map_param(chars@, start as int, term) {
            Some((t, next)) => r matches Some((s, n)) && s@ == t && n == next,
            None => r is None,
        },
{
    if start >= chars.len() || chars[start] != '"' {
        return None;
    }
    let mut i = start + 1;
    let mut text: Vec<char> = Vec::new();
    loop
        invariant
            map_param(chars@, start as int, term) == map_close(chars@, i as int, term, text@),
            i > start,
        decreases chars@.len() - i,
    {
        if i >= chars.len() {
            return None;
        }
        let c = chars[i];
        if c == '"' && i + 1 < chars.len() && chars[i + 1] == term {
            let t = dedup_quotes_exec(&text);
            return Some((t, i + 2));
        }
        text.push(c);
        i += 1;
    }
}


/// One piece of markup lifted out of the text, as plain values.
pub enum MarkupView {
    Tag(TagView),
    /// `\Map="spoken"="balloon"\`: speak one thing, display another.
    Remap { spoken: Seq<char>, balloon: Seq<char> },
}

/// One piece of markup lifted out of the text.
enum Markup {
    Tag(Tag),
    Remap { spoken: String, balloon: String },
}

spec fn markup_view(m: Markup) -> MarkupView {
    match m {
        Markup::Tag(t) => MarkupView::Tag(t@),
        Markup::Remap { spoken, balloon } => MarkupView::Remap { spoken: spoken@, balloon: balloon@ },
    }
}

/// Whether a character is an ASCII letter.
pub open spec fn is_alpha(c: char) -> bool {
    ('a' <= c <= 'z') || ('A' <= c <= 'Z')
}

/// The directive a parameterized tag name makes of its (unquoted) value.
pub open spec fn tag_for(name: Seq<char>, v: Seq<char>) -> Option<TagView> {
    if name == seq!['m', 'r', 'k'] {
        match parse_int(v) {
            Some(n) => Some(TagView::Bookmark(n)),
            None => None,
        }
    } else if name == seq!['p', 'a', 'u'] {
        match number(v) {
            Some(n) => Some(TagView::Pause(n)),
            None => None,
        }
    } else if name == seq!['v', 'o', 'l'] {
        match number(v) {
            Some(n) => Some(TagView::Volume(n)),
            None => None,
        }
    } else if name == seq!['s', 'p', 'd'] {
        match number(v) {
            Some(n) => Some(TagView::Speed(n)),
            None => None,
        }
    } else if name == seq!['p', 'i', 't'] {
        match number(v) {
            Some(n) => Some(TagView::Pitch(n)),
            None => None,
        }
    } else if name == seq!['c', 't', 'x'] {
        Some(TagView::Context(v))
    } else if name == seq!['c', 'h', 'r'] {
        Some(TagView::Voice(v))
    } else {
        None
    }
}

/// Two texts that agree from `i` on.
pub open spec fn same_from(a: Seq<char>, b: Seq<char>, i: int) -> bool {
    a.len() == b.len() && forall|k: int| i <= k < a.len() ==> #[trigger] a[k] == b[k]
}

proof fn lemma_scan_value_local(a: Seq<char>, b: Seq<char>, i: int, raw: Seq<char>)
    requires
        0 <= i,
        same_from(a, b, i),
    ensures
        scan_value(a, i, raw) == scan_value(b, i, raw),
    decreases a.len() - i,
{
    if i < a.len() {
        assert(a[i] == b[i]);
        if a[i] == '\\' {
            if i + 1 < a.len() {
                assert(a[i + 1] == b[i + 1]);
                if a[i + 1] == '\\' {
                    lemma_scan_value_local(a, b, i + 2, raw.push('\\'));
                }
            }
        } else {
            lemma_scan_value_local(a, b, i + 1, raw.push(a[i]));
        }
    }
}

proof fn lemma_map_close_local(a: Seq<char>, b: Seq<char>, i: int, term: char, text: Seq<char>)
    requires
        0 <= i,
        same_from(a, b, i),
    ensures
        map_close(a, i, term, text) == map_close(b, i, term, text),
    decreases a.len() - i,
{
    if i < a.len() {
        assert(a[i] == b[i]);
        if i + 1 < a.len() {
            assert(a[i + 1] == b[i + 1]);
        }
        lemma_map_close_local(a, b, i + 1, term, text.push(a[i]));
    }
}

/// Tag names ignore ASCII case: two texts that agree but for the case of a tag's three
/// name letters (`\Pit=`, `\pit=`, `\PIT=` ...) read the same tag there.
pub proof fn lemma_tag_name_case(a: Seq<char>, b: Seq<char>, start: int)
    requires
        0 <= start,
        same_from(a, b, start + 4),
        a.len() > start + 4,
        a[start] == b[start],
        forall|k: int| start + 1 <= k <= start + 3 ==> is_alpha(#[trigger] a[k]) == is_alpha(b[k])
            && crate::textutil::ascii_lower(a[k]) == crate::textutil::ascii_lower(b[k]),
    ensures
        tag_at(a, start) == tag_at(b, start),
{
    assert(is_alpha(a[start + 1]) == is_alpha(b[start + 1]));
    assert(is_alpha(a[start + 2]) == is_alpha(b[start + 2]));
    assert(is_alpha(a[start + 3]) == is_alpha(b[start + 3]));
    assert(crate::textutil::ascii_lower(a[start + 1]) == crate::textutil::ascii_lower(b[start + 1]));
    assert(crate::textutil::ascii_lower(a[start + 2]) == crate::textutil::ascii_lower(b[start + 2]));
    assert(crate::textutil::ascii_lower(a[start + 3]) == crate::textutil::ascii_lower(b[start + 3]));
    assert(a[start + 4] == b[start + 4]);
    lemma_scan_value_local(a, b, start + 5, Seq::empty());
    if start + 5 < a.len() {
        assert(a[start + 5] == b[start + 5]);
    }
    lemma_map_close_local(a, b, start + 6, '=', Seq::empty());
    match map_param(a, start + 5, '=') {
        Some((_spoken, after)) => {
            if after >= start + 4 {
                lemma_map_close_local(a, b, after + 1, '\\', Seq::empty());
            }
            lemma_map_close(a, start + 6, '=', Seq::empty());
        },
        None => {},
    }
}

/// Each parameterized tag name makes its own directive of its value: `pau` a pause, `vol`
/// a volume, `spd` a speed and `pit` a pitch of the number given, `mrk` a bookmark of the
/// integer given, `ctx` a context and `chr` a voice of the text given; no two of these
/// names make the same kind of directive.
pub proof fn lemma_tag_names(v: Seq<char>)
    ensures
        number(v) matches Some(n) ==> tag_for(seq!['p', 'a', 'u'], v) == Some(TagView::Pause(n))
            && tag_for(seq!['v', 'o', 'l'], v) == Some(TagView::Volume(n))
            && tag_for(seq!['s', 'p', 'd'], v) == Some(TagView::Speed(n))
            && tag_for(seq!['p', 'i', 't'], v) == Some(TagView::Pitch(n)),
        number(v) is None ==> tag_for(seq!['p', 'a', 'u'], v) is None
            && tag_for(seq!['v', 'o', 'l'], v) is None
            && tag_for(seq!['s', 'p', 'd'], v) is None
            && tag_for(seq!['p', 'i', 't'], v) is None,
        parse_int(v) matches Some(m) ==> tag_for(seq!['m', 'r', 'k'], v) == Some(TagView::Bookmark(m)),
        tag_for(seq!['c', 't', 'x'], v) == Some(TagView::Context(v)),
        tag_for(seq!['c', 'h', 'r'], v) == Some(TagView::Voice(v)),
{
    assert(seq!['p', 'a', 'u'] != seq!['m', 'r', 'k']) by {
        assert(seq!['p', 'a', 'u'][0] != seq!['m', 'r', 'k'][0]);
    }
    assert(seq!['v', 'o', 'l'] != seq!['m', 'r', 'k']) by {
        assert(seq!['v', 'o', 'l'][0] != seq!['m', 'r', 'k'][0]);
    }
    assert(seq!['v', 'o', 'l'] != seq!['p', 'a', 'u']) by {
        assert(seq!['v', 'o', 'l'][0] != seq!['p', 'a', 'u'][0]);
    }
    assert(seq!['s', 'p', 'd'] != seq!['m', 'r', 'k']) by {
        assert(seq!['s', 'p', 'd'][0] != seq!['m', 'r', 'k'][0]);
    }
    assert(seq!['s', 'p', 'd'] != seq!['p', 'a', 'u']) by {
        assert(seq!['s', 'p', 'd'][0] != seq!['p', 'a', 'u'][0]);
    }
    assert(seq!['s', 'p', 'd'] != seq!['v', 'o', 'l']) by {
        assert(seq!['s', 'p', 'd'][0] != seq!['v', 'o', 'l'][0]);
    }
    assert(seq!['p', 'i', 't'] != seq!['m', 'r', 'k']) by {
        assert(seq!['p', 'i', 't'][0] != seq!['m', 'r', 'k'][0]);
    }
    assert(seq!['p', 'i', 't'] != seq!['p', 'a', 'u']) by {
        assert(seq!['p', 'i', 't'][1] != seq!['p', 'a', 'u'][1]);
    }
    assert(seq!['p', 'i', 't'] != seq!['v', 'o', 'l']) by {
        assert(seq!['p', 'i', 't'][0] != seq!['v', 'o', 'l'][0]);
    }
    assert(seq!['p', 'i', 't'] != seq!['s', 'p', 'd']) by {
        assert(seq!['p', 'i', 't'][0] != seq!['s', 'p', 'd'][0]);
    }
    let ctx = seq!['c', 't', 'x'];
    let chr = seq!['c', 'h', 'r'];
    assert(ctx != seq!['m', 'r', 'k'] && ctx != seq!['p', 'a', 'u'] && ctx != seq!['v', 'o', 'l']
        && ctx != seq!['s', 'p', 'd'] && ctx != seq!['p', 'i', 't']) by {
        assert(ctx[0] == 'c');
        assert(seq!['m', 'r', 'k'][0] == 'm' && seq!['p', 'a', 'u'][0] == 'p' && seq!['v', 'o', 'l'][0]
            == 'v' && seq!['s', 'p', 'd'][0] == 's' && seq!['p', 'i', 't'][0] == 'p');
    }
    assert(chr != seq!['m', 'r', 'k'] && chr != seq!['p', 'a', 'u'] && chr != seq!['v', 'o', 'l']
        && chr != seq!['s', 'p', 'd'] && chr != seq!['p', 'i', 't'] && chr != ctx) by {
        assert(chr[0] == 'c' && chr[1] == 'h' && ctx[1] == 't');
        assert(seq!['m', 'r', 'k'][0] == 'm' && seq!['p', 'a', 'u'][0] == 'p' && seq!['v', 'o', 'l'][0]
            == 'v' && seq!['s', 'p', 'd'][0] == 's' && seq!['p', 'i', 't'][0] == 'p');
    }
}

/// The tag starting at `chars[start]` (a backslash) and the index just past its closing
/// backslash: a three-letter name (ASCII case ignored), then `\` for `Emp`, `Rst` and
/// `Lst`, or `=` and a value for the others. `None` when it is not one of these tags.
pub open spec fn tag_at(chars: Seq<char>, start: int) -> Option<(MarkupView, int)> {
    if !(0 <= start && start + 4 < chars.len()) {
        None
    } else if !(is_alpha(chars[start + 1]) && is_alpha(chars[start + 2]) && is_alpha(chars[start + 3])) {
        None
    } else {
        let name = seq![
            crate::textutil::ascii_lower(chars[start + 1]),
            crate::textutil::ascii_lower(chars[start + 2]),
            crate::textutil::ascii_lower(chars[start + 3]),
        ];
        let c = chars[start + 4];
        if c == '\\' {
            if name == seq!['e', 'm', 'p'] {
                Some((MarkupView::Tag(TagView::Emphasize), start + 5))
            } else if name == seq!['r', 's', 't'] {
                Some((MarkupView::Tag(TagView::Reset), start + 5))
            } else if name == seq!['l', 's', 't'] {
                Some((MarkupView::Tag(TagView::RepeatLast), start + 5))
            } else {
                None
            }
        } else if c == '=' {
            if name == seq!['m', 'a', 'p'] {
                match map_param(chars, start + 5, '=') {
                    None => None,
                    Some((spoken, after)) => match map_param(chars, after, '\\') {
                        None => None,
                        Some((balloon, next)) => Some(
                            (MarkupView::Remap { spoken, balloon }, next),
                        ),
                    },
                }
            } else {
                match scan_value(chars, start + 5, Seq::empty()) {
                    None => None,
                    Some((raw, end)) => match tag_for(name, unquote(raw)) {
                        Some(t) => Some((MarkupView::Tag(t), end + 1)),
                        None => None,
                    },
                }
            }
        } else {
            None
        }
    }
}

proof fn lemma_scan_value(chars: Seq<char>, end: int, raw: Seq<char>)
    requires
        0 <= end,
    ensures
        scan_value(chars, end, raw) matches Some((_r, e)) ==> end <= e < chars.len(),
    decreases chars.len() - end,
{
    if 0 <= end < chars.len() {
        if chars[end] == '\\' {
            if end + 1 < chars.len() && chars[end + 1] == '\\' {
                lemma_scan_value(chars, end + 2, raw.push('\\'));
            }
        } else {
            lemma_scan_value(chars, end + 1, raw.push(chars[end]));
        }
    }
}

/// A tag ends after it starts and within the text, and a `\Map`'s spoken half is
/// shorter than the text it came from.
pub proof fn lemma_tag_at(chars: Seq<char>, start: int)
    ensures
        tag_at(chars, start) matches Some((m, next)) ==> start < next <= chars.len() && (
        m matches MarkupView::Remap { spoken, balloon } ==> spoken.len() < chars.len()),
{
    if 0 <= start && start + 4 < chars.len() {
        lemma_scan_value(chars, start + 5, Seq::empty());
        if 0 <= start + 5 < chars.len() {
            lemma_map_close(chars, start + 6, '=', Seq::empty());
            match map_param(chars, start + 5, '=') {
                Some((sp, after)) => {
                    if 0 <= after < chars.len() {
                        lemma_map_close(chars, after + 1, '\\', Seq::empty());
                    }
                },
                None => {},
            }
        }
    }
}

fn tag_for_exec(name: &[char; 3], v: Vec<char>) -> (r: Option<Tag>)
    ensures
        match tag_for(name@, v@) {
            Some(t) => r matches Some(x) && x@ == t,
            None => r is None,
        },
{
    let (a, b, c) = (name[0], name[1], name[2]);
    if a == 'm' && b == 'r' && c == 'k' {
        assert(name@ =~= seq!['m', 'r', 'k']);
        assert(v@.subrange(0, v@.len() as int) =~= v@);
        match parse_int_exec(&v, 0) {
            Some(n) => Some(Tag::Bookmark(n)),
            None => None,
        }
    } else if a == 'p' && b == 'a' && c == 'u' {
        assert(name@ =~= seq!['p', 'a', 'u']);
        match number_exec(&v) {
            Some(n) => Some(Tag::Pause(n)),
            None => None,
        }
    } else if a == 'v' && b == 'o' && c == 'l' {
        assert(name@ =~= seq!['v', 'o', 'l']);
        match number_exec(&v) {
            Some(n) => Some(Tag::Volume(n)),
            None => None,
        }
    } else if a == 's' && b == 'p' && c == 'd' {
        assert(name@ =~= seq!['s', 'p', 'd']);
        match number_exec(&v) {
            Some(n) => Some(Tag::Speed(n)),
            None => None,
        }
    } else if a == 'p' && b == 'i' && c == 't' {
        assert(name@ =~= seq!['p', 'i', 't']);
        match number_exec(&v) {
            Some(n) => Some(Tag::Pitch(n)),
            None => None,
        }
    } else if a == 'c' && b == 't' && c == 'x' {
        assert(name@ =~= seq!['c', 't', 'x']);
        Some(Tag::Context(string_from_chars(v.as_slice())))
    } else if a == 'c' && b == 'h' && c == 'r' {
        assert(name@ =~= seq!['c', 'h', 'r']);
        Some(Tag::Voice(string_from_chars(v.as_slice())))
    } else {
        proof {
            assert(!(name@ =~= seq!['m', 'r', 'k']));
            assert(!(name@ =~= seq!['p', 'a', 'u']));
            assert(!(name@ =~= seq!['v', 'o', 'l']));
            assert(!(name@ =~= seq!['s', 'p', 'd']));
            assert(!(name@ =~= seq!['p', 'i', 't']));
            assert(!(name@ =~= seq!['c', 't', 'x']));
            assert(!(name@ =~= seq!['c', 'h', 'r']));
        }
        None
    }
}

/// Parse the tag starting at `chars[start]` (a backslash).
fn parse_tag(chars: &Vec<char>, start: usize) -> (r: Option<(Markup, usize)>)
    ensures
        match tag_at(chars@, start as int) {
            Some((m, next)) => r matches Some((x, n)) && markup_view(x) == m && n == next,
            None => r is None,
        },
{
    if start >= chars.len() || chars.len() - start <= 4 {
        return None;
    }
    let (c1, c2, c3) = (chars[start + 1], chars[start + 2], chars[start + 3]);
    let alpha = |c: char| -> (r: bool)
        ensures
            r == is_alpha(c),
        { ('a' <= c && c <= 'z') || ('A' <= c && c <= 'Z') };
    if !(alpha(c1) && alpha(c2) && alpha(c3)) {
        return None;
    }
    let name = [
        crate::textutil::to_ascii_lower(c1),
        crate::textutil::to_ascii_lower(c2),
        crate::textutil::to_ascii_lower(c3),
    ];
    let ghost nm = seq![
        crate::textutil::ascii_lower(chars@[start + 1]),
        crate::textutil::ascii_lower(chars@[start + 2]),
        crate::textutil::ascii_lower(chars@[start + 3]),
    ];
    assert(name@ =~= nm);
    let c = chars[start + 4];
    if c == '\\' {
        if name[0] == 'e' && name[1] == 'm' && name[2] == 'p' {
            assert(nm =~= seq!['e', 'm', 'p']);
            Some((Markup::Tag(Tag::Emphasize), start + 5))
        } else if name[0] == 'r' && name[1] == 's' && name[2] == 't' {
            assert(nm =~= seq!['r', 's', 't']);
            Some((Markup::Tag(Tag::Reset), start + 5))
        } else if name[0] == 'l' && name[1] == 's' && name[2] == 't' {
            assert(nm =~= seq!['l', 's', 't']);
            Some((Markup::Tag(Tag::RepeatLast), start + 5))
        } else {
            proof {
                assert(!(nm =~= seq!['e', 'm', 'p']));
                assert(!(nm =~= seq!['r', 's', 't']));
                assert(!(nm =~= seq!['l', 's', 't']));
            }
            None
        }
    } else if c == '=' {
        if name[0] == 'm' && name[1] == 'a' && name[2] == 'p' {
            assert(nm =~= seq!['m', 'a', 'p']);
            let (spoken, after) = match map_param_exec(chars, start + 5, '=') {
                Some(x) => x,
                None => return None,
            };
            let (balloon, next) = match map_param_exec(chars, after, '\\') {
                Some(x) => x,
                None => return None,
            };
            Some((Markup::Remap { spoken, balloon }, next))
        } else {
            assert(!(nm =~= seq!['m', 'a', 'p']));
            let (raw, end) = match scan_value_exec(chars, start + 5) {
                Some(x) => x,
                None => return None,
            };
            proof {
                lemma_scan_value(chars@, start + 5, Seq::empty());
            }
            let v = unquote_exec(raw);
            match tag_for_exec(&name, v) {
                Some(t) => Some((Markup::Tag(t), end + 1)),
                None => None,
            }
        }
    } else {
        None
    }
}


/// The parse of `chars` from `i` on, with `word` in progress and `out` so far: an
/// escape (`\\` or `\"`) stays inside the word, a tag ends the word and is lifted out,
/// whitespace ends the word, anything else joins it. A `\Map` displays its balloon half
/// and parses its spoken half as speech only.
pub open spec fn stream(chars: Seq<char>, i: int, word: Seq<char>, out: SpeechView, sink: Sink) -> SpeechView
    decreases chars.len(), chars.len() - i,
{
    if i < 0 || i >= chars.len() {
        flush(out, word, sink)
    } else if chars[i] == '\\' && i + 1 < chars.len() && (chars[i + 1] == '\\' || chars[i + 1] == '"') {
        stream(chars, i + 2, word.push(chars[i + 1]), out, sink)
    } else if chars[i] == '\\' && tag_at(chars, i) is Some {
        proof {
            lemma_tag_at(chars, i);
        }
        let o = flush(out, word, sink);
        match tag_at(chars, i) {
            Some((MarkupView::Tag(t), next)) => stream(chars, next, Seq::empty(), push_tag(o, t), sink),
            Some((MarkupView::Remap { spoken, balloon }, next)) => stream(
                chars,
                next,
                Seq::empty(),
                stream(
                    spoken,
                    0,
                    Seq::empty(),
                    push_words(o, balloon, Sink::DisplayOnly),
                    Sink::SpeechOnly,
                ),
                sink,
            ),
            None => out,
        }
    } else if is_space(chars[i]) {
        stream(chars, i + 1, Seq::empty(), flush(out, word, sink), sink)
    } else {
        stream(chars, i + 1, word.push(chars[i]), out, sink)
    }
}

/// The parse of a whole `Speak` string.
pub open spec fn spec_parse_speech(input: Seq<char>) -> SpeechView {
    stream(input, 0, Seq::empty(), no_speech(), Sink::Both)
}

/// Emit the word built so far, if any, and start a new one.
fn flush_word(word: &mut String, out: &mut ParsedSpeech, sink: Sink)
    ensures
        final(out)@ == flush(old(out)@, old(word)@, sink),
        final(word)@ == Seq::<char>::empty(),
{
    if word.unicode_len() == 0 {
        *word = String::new();
        return;
    }
    if sink != Sink::SpeechOnly {
        out.display_words.push(crate::textutil::copy_string(word));
    }
    if sink != Sink::DisplayOnly {
        out.speech.push(SpeechItem::Word(crate::textutil::copy_string(word)));
    }
    *word = String::new();
    assert(out@.display =~= flush(old(out)@, old(word)@, sink).display);
    assert(out@.speech =~= flush(old(out)@, old(word)@, sink).speech);
}

/// Emit the whitespace-separated words of `text` (no tag interpretation).
fn push_words_exec(text: &str, out: &mut ParsedSpeech, sink: Sink)
    ensures
        final(out)@ == push_words(old(out)@, text@, sink),
{
    let chars = chars_of(text);
    let mut word = String::new();
    let mut i: usize = 0;
    while i < chars.len()
        invariant
            chars@ == text@,
            0 <= i <= chars@.len(),
            (out@, word@) == words_state(text@, i as nat, old(out)@, sink),
        decreases chars@.len() - i,
    {
        if char_is_space(chars[i]) {
            flush_word(&mut word, out, sink);
        } else {
            push_char(&mut word, chars[i]);
        }
        i += 1;
    }
    flush_word(&mut word, out, sink);
}

/// Append a directive to the speech stream, noting where a bookmark falls.
fn push_tag_exec(tag: Tag, out: &mut ParsedSpeech)
    ensures
        final(out)@ == push_tag(old(out)@, tag@),
{
    if let Tag::Bookmark(id) = tag {
        let at = out.display_words.len();
        out.bookmark_at.push((id, at));
    }
    out.speech.push(SpeechItem::Tag(tag));
    assert(out@.speech =~= push_tag(old(out)@, tag@).speech);
    assert(out@.marks =~= push_tag(old(out)@, tag@).marks);
}

/// Walk `input`, accumulating words into `out` and interpreting tags as they appear.
fn parse_stream(input: &str, out: &mut ParsedSpeech, sink: Sink)
    ensures
        final(out)@ == stream(input@, 0, Seq::empty(), old(out)@, sink),
    decreases input@.len(),
{
    let chars = chars_of(input);
    let ghost start = out@;
    let mut word = String::new();
    let mut i: usize = 0;
    while i < chars.len()
        invariant
            chars@ == input@,
            0 <= i <= chars@.len(),
            stream(input@, 0, Seq::empty(), start, sink) == stream(input@, i as int, word@, out@, sink),
        decreases chars@.len() - i,
    {
        let c = chars[i];
        if c == '\\' {
            if i + 1 < chars.len() && (chars[i + 1] == '\\' || chars[i + 1] == '"') {
                push_char(&mut word, chars[i + 1]);
                i += 2;
                continue;
            }
            match parse_tag(&chars, i) {
                Some((markup, next)) => {
                    proof {
                        lemma_tag_at(input@, i as int);
                    }
                    flush_word(&mut word, out, sink);
                    match markup {
                        Markup::Tag(tag) => push_tag_exec(tag, out),
                        Markup::Remap { spoken, balloon } => {
                            push_words_exec(balloon.as_str(), out, Sink::DisplayOnly);
                            parse_stream(spoken.as_str(), out, Sink::SpeechOnly);
                        },
                    }
                    i = next;
                    continue;
                },
                None => {},
            }
        }
        if char_is_space(c) {
            flush_word(&mut word, out, sink);
        } else {
            push_char(&mut word, c);
        }
        i += 1;
    }
    flush_word(&mut word, out, sink);
}

/// Parse a `Speak`/`Think` string into display words and a speech stream.
///
/// Plain text splits on whitespace into words that both show in the balloon and are
/// spoken. A tag is lifted out of the text: most become a directive in the speech stream
/// where they appeared, `\Mrk=N\` also records its position among the display words,
/// and `\Map="..."="..."\` splits its halves, the first parsed as speech, the second
/// shown in the balloon. A tag always ends the word it interrupts. `\\` and `\"` stand
/// for a literal backslash and quote; a backslash sequence that is not a known tag is
/// literal text.
pub fn parse_speech(input: &str) -> (p: ParsedSpeech)
    ensures
        p@ == spec_parse_speech(input@),
{
    let mut parsed = ParsedSpeech { display_words: Vec::new(), speech: Vec::new(), bookmark_at: Vec::new() };
    assert(parsed@.display =~= no_speech().display);
    assert(parsed@.speech =~= no_speech().speech);
    parse_stream(input, &mut parsed, Sink::Both);
    parsed
}

/// `words` joined with single spaces.
pub open spec fn join_spaced(words: Seq<Seq<char>>) -> Seq<char>
    decreases words.len(),
{
    if words.len() == 0 {
        Seq::empty()
    } else if words.len() == 1 {
        words[0]
    } else {
        join_spaced(words.drop_last()).push(' ') + words.last()
    }
}

/// The spoken words of a speech stream, in order.
pub open spec fn spoken_words(items: Seq<ItemView>) -> Seq<Seq<char>>
    decreases items.len(),
{
    if items.len() == 0 {
        Seq::empty()
    } else {
        let prev = spoken_words(items.drop_last());
        match items.last() {
            ItemView::Word(w) => prev.push(w),
            ItemView::Tag(_) => prev,
        }
    }
}

/// The bookmark ids of a speech stream, in order.
pub open spec fn bookmark_ids(items: Seq<ItemView>) -> Seq<i64>
    decreases items.len(),
{
    if items.len() == 0 {
        Seq::empty()
    } else {
        let prev = bookmark_ids(items.drop_last());
        match items.last() {
            ItemView::Tag(TagView::Bookmark(n)) => prev.push(n),
            _ => prev,
        }
    }
}

/// Join strings with single spaces.
fn join_words(words: &Vec<String>) -> (s: String)
    ensures
        s@ == join_spaced(words_view(words@)),
{
    let ghost ws = words_view(words@);
    let mut s = String::new();
    let mut i: usize = 0;
    while i < words.len()
        invariant
            0 <= i <= words@.len(),
            ws == words_view(words@),
            s@ == join_spaced(ws.subrange(0, i as int)),
        decreases words@.len() - i,
    {
        if i > 0 {
            push_char(&mut s, ' ');
        }
        push_str(&mut s, words[i].as_str());
        i += 1;
        assert(ws.subrange(0, i as int).drop_last() =~= ws.subrange(0, (i - 1) as int));
    }
    assert(ws.subrange(0, i as int) =~= ws);
    s
}

impl ParsedSpeech {
    /// The balloon text: display words joined by single spaces.
    pub fn display_text(&self) -> (s: String)
        ensures
            s@ == join_spaced(self@.display),
    {
        join_words(&self.display_words)
    }

    /// The spoken text with directives removed: words joined by single spaces.
    pub fn spoken_text(&self) -> (s: String)
        ensures
            s@ == join_spaced(spoken_words(self@.speech)),
    {
        let ghost items = self@.speech;
        let mut words: Vec<String> = Vec::new();
        let mut i: usize = 0;
        while i < self.speech.len()
            invariant
                0 <= i <= self.speech@.len(),
                items == items_view(self.speech@),
                words_view(words@) == spoken_words(items.subrange(0, i as int)),
            decreases self.speech@.len() - i,
        {
            assert(items.subrange(0, (i + 1) as int).drop_last() =~= items.subrange(0, i as int));
            match &self.speech[i] {
                SpeechItem::Word(w) => {
                    words.push(crate::textutil::copy_string(w));
                },
                SpeechItem::Tag(_) => {},
            }
            i += 1;
            assert(words_view(words@) =~= spoken_words(items.subrange(0, i as int)));
        }
        assert(items.subrange(0, i as int) =~= items);
        join_words(&words)
    }

    /// All bookmark ids, in order.
    pub fn bookmarks(&self) -> (ids: Vec<i64>)
        ensures
            ids@ == bookmark_ids(self@.speech),
    {
        let ghost items = self@.speech;
        let mut ids: Vec<i64> = Vec::new();
        let mut i: usize = 0;
        while i < self.speech.len()
            invariant
                0 <= i <= self.speech@.len(),
                items == items_view(self.speech@),
                ids@ == bookmark_ids(items.subrange(0, i as int)),
            decreases self.speech@.len() - i,
        {
            assert(items.subrange(0, (i + 1) as int).drop_last() =~= items.subrange(0, i as int));
            if let SpeechItem::Tag(Tag::Bookmark(n)) = &self.speech[i] {
                ids.push(*n);
            }
            i += 1;
        }
        assert(items.subrange(0, i as int) =~= items);
        ids
    }
}

} // verus!
