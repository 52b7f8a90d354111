//! Terminal output with ANSI colour codes (as `chafa` prints images), read
//! into lines of styled text.
use vstd::prelude::*;
use crate::text::{split_char, parse_unsigned, chars_of, string_of, split_char_exec, views,
    parse_unsigned_exec, eq_chars};

verus! {

/// A terminal colour: an index of the 256-colour palette or an RGB triple.
#[derive(Debug, Clone, Copy, PartialEq, Eq, Structural)]
pub enum AnsiColor {
    Indexed(u8),
    Rgb(u8, u8, u8),
}

/// Foreground, background and reverse video of a piece of text.
#[derive(Debug, Clone, Copy, PartialEq, Eq, Structural)]
pub struct SpanStyle {
    pub fg: Option<AnsiColor>,
    pub bg: Option<AnsiColor>,
    pub reversed: bool,
}

/// A piece of text in one style.
#[derive(Debug, Clone)]
pub struct StyledSpan {
    pub text: String,
    pub style: SpanStyle,
}

/// Mathematical view of a styled piece of text.
pub ghost struct SpanView {
    pub text: Seq<char>,
    pub style: SpanStyle,
}

impl View for StyledSpan {
    type V = SpanView;

    open spec fn view(&self) -> SpanView {
        SpanView { text: self.text@, style: self.style }
    }
}

/// The default style: no colours, not reversed.
pub open spec fn plain_style() -> SpanStyle {
    SpanStyle { fg: None, bg: None, reversed: false }
}

/// A byte parameter, zero when it does not read as one.
pub open spec fn byte_or_zero(s: Seq<char>) -> u8 {
    match parse_unsigned(s, 255) {
        Some(v) => v as u8,
        None => 0,
    }
}

/// The byte parameter at index `j`, zero when absent or unreadable.
pub open spec fn byte_at(parts: Seq<Seq<char>>, j: int) -> u8 {
    if 0 <= j < parts.len() {
        byte_or_zero(parts[j])
    } else {
        0
    }
}

/// The colour given by the parameters after a `38` or `48` at index `j`
/// (`5;n` or `2;r;g;b`), and the index of the next parameter to read.
pub open spec fn color_at(parts: Seq<Seq<char>>, j: int) -> (Option<AnsiColor>, int) {
    if j >= parts.len() {
        (None, j + 1)
    } else if parts[j] == "5"@ {
        if j + 1 < parts.len() {
            (Some(AnsiColor::Indexed(byte_or_zero(parts[j + 1]))), j + 2)
        } else {
            (None, j + 2)
        }
    } else if parts[j] == "2"@ {
        (Some(AnsiColor::Rgb(byte_at(parts, j + 1), byte_at(parts, j + 2), byte_at(parts, j + 3))), j
            + 4)
    } else {
        (None, j + 1)
    }
}

/// The style after the select-graphic-rendition parameters from index `i`
/// on: `0` resets, `7` and `27` set and clear reverse video, `38` and `48`
/// set the foreground and background colour, others are ignored.
pub open spec fn sgr_from(parts: Seq<Seq<char>>, i: int, st: SpanStyle) -> SpanStyle
    decreases parts.len() + 5 - i,
{
    if i < 0 || i >= parts.len() {
        st
    } else {
        let p = parts[i];
        if p == "0"@ {
            sgr_from(parts, i + 1, plain_style())
        } else if p == "7"@ {
            sgr_from(parts, i + 1, SpanStyle { reversed: true, ..st })
        } else if p == "27"@ {
            sgr_from(parts, i + 1, SpanStyle { reversed: false, ..st })
        } else if p == "38"@ || p == "48"@ {
            let (c, next) = color_at(parts, i + 1);
            let st2 = match c {
                Some(col) => if p == "38"@ {
                    SpanStyle { fg: Some(col), ..st }
                } else {
                    SpanStyle { bg: Some(col), ..st }
                },
                None => st,
            };
            if next > i {
                sgr_from(parts, next, st2)
            } else {
                st2
            }
        } else {
            sgr_from(parts, i + 1, st)
        }
    }
}

/// The style after a whole parameter string (`;`-separated); an empty
/// string or `0` resets.
pub open spec fn sgr(params: Seq<char>, st: SpanStyle) -> SpanStyle {
    if params.len() == 0 || params == "0"@ {
        plain_style()
    } else {
        sgr_from(split_char(params, ';'), 0, st)
    }
}

fn byte_or_zero_exec(s: &[char]) -> (r: u8)
    ensures
        r == byte_or_zero(s@),
{
    match parse_unsigned_exec(s, 255) {
        Some(v) => v as u8,
        None => 0,
    }
}

fn byte_at_exec(parts: &Vec<Vec<char>>, j: usize) -> (r: u8)
    ensures
        r == byte_at(views(parts@), j as int),
{
    if j < parts.len() {
        assert(views(parts@)[j as int] == parts@[j as int]@);
        byte_or_zero_exec(parts[j].as_slice())
    } else {
        0
    }
}

fn is_lit(v: &Vec<char>, lit: &str) -> (r: bool)
    ensures
        r == (v@ == lit@),
{
    let l = chars_of(lit);
    eq_chars(v.as_slice(), l.as_slice())
}

/// Apply select-graphic-rendition parameters to a style.
pub fn apply_sgr(style: &mut SpanStyle, params: &[char])
    ensures
        *final(style) == sgr(params@, *old(style)),
{
    let zero = chars_of("0");
    if params.len() == 0 || eq_chars(params, zero.as_slice()) {
        *style = SpanStyle { fg: None, bg: None, reversed: false };
        return;
    }
    let parts = split_char_exec(params, ';');
    let ghost pv = views(parts@);
    let ghost st0 = *style;
    let n = parts.len();
    let mut i: usize = 0;
    while i < n
        invariant
            n == parts@.len() == pv.len(),
            pv == views(parts@),
            sgr_from(pv, 0, st0) == sgr_from(pv, i as int, *style),
        decreases n - i,
    {
        assert(pv[i as int] == parts@[i as int]@);
        let p = &parts[i];
        if is_lit(p, "0") {
            *style = SpanStyle { fg: None, bg: None, reversed: false };
            i = i + 1;
        } else if is_lit(p, "7") {
            style.reversed = true;
            i = i + 1;
        } else if is_lit(p, "27") {
            style.reversed = false;
            i = i + 1;
        } else if is_lit(p, "38") || is_lit(p, "48") {
            let is_fg = is_lit(p, "38");
            let j = i + 1;
            let mut color: Option<AnsiColor> = None;
            // the next parameter to read, capped at the number of parameters
            let next: usize;
            if j >= n {
                next = n;
            } else {
                assert(pv[j as int] == parts@[j as int]@);
                if is_lit(&parts[j], "5") {
                    if j + 1 < n {
                        assert(pv[j + 1] == parts@[j + 1]@);
                        color = Some(AnsiColor::Indexed(byte_or_zero_exec(parts[j + 1].as_slice())));
                        next = j + 2;
                    } else {
                        next = n;
                    }
                } else if is_lit(&parts[j], "2") {
                    let r = byte_at_exec(&parts, j + 1);
                    let g = if n - j > 2 {
                        byte_at_exec(&parts, j + 2)
                    } else {
                        0
                    };
                    let b = if n - j > 3 {
                        byte_at_exec(&parts, j + 3)
                    } else {
                        0
                    };
                    color = Some(AnsiColor::Rgb(r, g, b));
                    next = if n - j > 4 {
                        j + 4
                    } else {
                        n
                    };
                } else {
                    next = j + 1;
                }
            }
            let ghost st_before = *style;
            match color {
                Some(c) => {
                    if is_fg {
                        style.fg = Some(c);
                    } else {
                        style.bg = Some(c);
                    }
                },
                None => {},
            }
            proof {
                let (cs, ns) = color_at(pv, j as int);
                assert(cs == color);
                assert(ns > i);
                assert(ns == next || (next == n && ns >= n));
                assert(sgr_from(pv, i as int, st_before) == sgr_from(pv, ns, *style));
                if ns != next {
                    assert(sgr_from(pv, ns, *style) == *style);
                    assert(sgr_from(pv, next as int, *style) == *style);
                }
            }
            i = next;
        } else {
            i = i + 1;
        }
    }
}

// ---------------------------------------------------------------------------
// Reading terminal output
// ---------------------------------------------------------------------------

/// Where the reader of terminal output is.
pub ghost enum AnsiMode {
    Text,
    Escape,
    Params(Seq<char>),
}

/// The reader of terminal output: finished lines, the spans of the current
/// line, pending text, the current style, and the mode.
pub ghost struct AnsiState {
    pub lines: Seq<Seq<SpanView>>,
    pub spans: Seq<SpanView>,
    pub buf: Seq<char>,
    pub style: SpanStyle,
    pub mode: AnsiMode,
}

/// The pending text becomes a span in the current style (if any).
pub open spec fn flush(st: AnsiState) -> AnsiState {
    if st.buf.len() > 0 {
        AnsiState {
            spans: st.spans.push(SpanView { text: st.buf, style: st.style }),
            buf: Seq::empty(),
            ..st
        }
    } else {
        st
    }
}

/// The escape character.
pub open spec fn esc() -> char {
    '\u{1b}'
}

/// One character of terminal output.  `ESC [` opens a control sequence,
/// ended by `m`, `h` or `l` (only `m` changes the style); an `ESC` not
/// followed by `[` stays in the text and the character after it is lost;
/// a newline ends the line.
pub open spec fn ansi_step(st: AnsiState, c: char) -> AnsiState {
    match st.mode {
        AnsiMode::Text => if c == esc() {
            AnsiState { mode: AnsiMode::Escape, ..st }
        } else if c == '\n' {
            let f = flush(st);
            AnsiState { lines: f.lines.push(f.spans), spans: Seq::empty(), ..f }
        } else {
            AnsiState { buf: st.buf.push(c), ..st }
        },
        AnsiMode::Escape => if c == '[' {
            AnsiState { mode: AnsiMode::Params(Seq::empty()), ..st }
        } else {
            AnsiState { buf: st.buf.push(esc()), mode: AnsiMode::Text, ..st }
        },
        AnsiMode::Params(p) => if c == 'm' || c == 'h' || c == 'l' {
            let f = flush(st);
            AnsiState {
                style: if c == 'm' {
                    sgr(p, f.style)
                } else {
                    f.style
                },
                mode: AnsiMode::Text,
                ..f
            }
        } else {
            AnsiState { mode: AnsiMode::Params(p.push(c)), ..st }
        },
    }
}

/// The reader before any output.
pub open spec fn ansi_start() -> AnsiState {
    AnsiState {
        lines: Seq::empty(),
        spans: Seq::empty(),
        buf: Seq::empty(),
        style: plain_style(),
        mode: AnsiMode::Text,
    }
}

/// The reader after the output `s`.
pub open spec fn ansi_run(s: Seq<char>) -> AnsiState
    decreases s.len(),
{
    if s.len() == 0 {
        ansi_start()
    } else {
        ansi_step(ansi_run(s.drop_last()), s.last())
    }
}

/// The lines of terminal output: at its end a pending `ESC` stays in the
/// text, an open control sequence ends, pending text becomes a span, and a
/// last line with spans is kept.
pub open spec fn ansi_lines(s: Seq<char>) -> Seq<Seq<SpanView>> {
    let st = ansi_run(s);
    let st1 = match st.mode {
        AnsiMode::Escape => AnsiState { buf: st.buf.push(esc()), ..st },
        _ => st,
    };
    let f = flush(st1);
    if f.spans.len() > 0 {
        f.lines.push(f.spans)
    } else {
        f.lines
    }
}

/// The views of a line of spans.
pub open spec fn spans_view(v: Seq<StyledSpan>) -> Seq<SpanView> {
    v.map_values(|s: StyledSpan| s@)
}

/// The views of lines of spans.
pub open spec fn lines_view(v: Seq<Vec<StyledSpan>>) -> Seq<Seq<SpanView>> {
    v.map_values(|l: Vec<StyledSpan>| spans_view(l@))
}

fn flush_span(spans: &mut Vec<StyledSpan>, buf: &mut Vec<char>, style: SpanStyle)
    ensures
        old(buf)@.len() > 0 ==> spans_view(final(spans)@) == spans_view(old(spans)@).push(
            SpanView { text: old(buf)@, style },
        ) && final(buf)@.len() == 0,
        old(buf)@.len() == 0 ==> final(spans)@ == old(spans)@ && final(buf)@ == old(buf)@,
{
    if buf.len() > 0 {
        let ghost before = spans_view(spans@);
        let text = string_of(buf.as_slice());
        spans.push(StyledSpan { text, style });
        *buf = Vec::new();
        assert(spans_view(spans@) =~= before.push(SpanView { text: old(buf)@, style }));
    }
}

/// Read terminal output into lines of styled spans.
pub fn parse_ansi(output: &str) -> (r: Vec<Vec<StyledSpan>>)
    ensures
        lines_view(r@) == ansi_lines(output@),
{
    let s = chars_of(output);
    let mut lines: Vec<Vec<StyledSpan>> = Vec::new();
    let mut spans: Vec<StyledSpan> = Vec::new();
    let mut buf: Vec<char> = Vec::new();
    let mut style = SpanStyle { fg: None, bg: None, reversed: false };
    // 0: text, 1: escape seen, 2: inside a control sequence
    let mut mode: u8 = 0;
    let mut param: Vec<char> = Vec::new();
    let mut i: usize = 0;
    assert(s@.take(0) =~= Seq::<char>::empty());
    assert(lines_view(lines@) =~= Seq::<Seq<SpanView>>::empty());
    assert(spans_view(spans@) =~= Seq::<SpanView>::empty());
    while i < s.len()
        invariant
            i <= s@.len(),
            s@ == output@,
            mode <= 2,
            ({
                let st = ansi_run(s@.take(i as int));
                &&& st.lines == lines_view(lines@)
                &&& st.spans == spans_view(spans@)
                &&& st.buf == buf@
                &&& st.style == style
                &&& st.mode == (if mode == 0 {
                    AnsiMode::Text
                } else if mode == 1 {
                    AnsiMode::Escape
                } else {
                    AnsiMode::Params(param@)
                })
            }),
        decreases s.len() - i,
    {
        let c = s[i];
        let ghost st = ansi_run(s@.take(i as int));
        assert(s@.take(i + 1).drop_last() =~= s@.take(i as int));
        assert(s@.take(i + 1).last() == c);
        if mode == 0 {
            if c == '\u{1b}' {
                mode = 1;
            } else if c == '\n' {
                flush_span(&mut spans, &mut buf, style);
                let ghost f = flush(st);
                assert(spans_view(spans@) == f.spans);
                let line = spans;
                lines.push(line);
                spans = Vec::new();
                assert(lines_view(lines@) =~= f.lines.push(f.spans));
                assert(spans_view(spans@) =~= Seq::<SpanView>::empty());
            } else {
                buf.push(c);
            }
        } else if mode == 1 {
            if c == '[' {
                mode = 2;
                param = Vec::new();
            } else {
                buf.push('\u{1b}');
                mode = 0;
            }
        } else {
            if c == 'm' || c == 'h' || c == 'l' {
                flush_span(&mut spans, &mut buf, style);
                if c == 'm' {
                    apply_sgr(&mut style, param.as_slice());
                }
                mode = 0;
            } else {
                param.push(c);
            }
        }
        i = i + 1;
    }
    assert(s@.take(s@.len() as int) =~= s@);
    if mode == 1 {
        buf.push('\u{1b}');
    }
    flush_span(&mut spans, &mut buf, style);
    if spans.len() > 0 {
        lines.push(spans);
    }
    assert(lines_view(lines@) =~= ansi_lines(output@));
    lines
}

} // verus!
