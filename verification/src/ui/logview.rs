//! The lines of the log view: each log line as a row of styled pieces.

use crate::grep::{pattern_ranges, Grep};
use crate::stdout::{color_key, color_key_of, format_prefix, prefix_of};
use crate::text::{digit_char, push_two_digits, two_digits};
use crate::types::{LogMessage, LogMessageView, Timestamp};
use crate::ui::app::line_pattern;
use crate::ui::widgets::Style;
use crate::utils::{get_color, palette_slot, str_hash, tui_palette, Color};
use vstd::prelude::*;
use vstd::string::*;
use vstd::utf8::{encode_utf8, is_char_boundary};

verus! {

/// A piece of a line: a text, and whether it is a search match.
#[derive(Debug)]
pub struct Piece {
    pub text: String,
    pub matched: bool,
}

/// What a `Piece` is in contracts: its text as bytes.
pub struct PieceView {
    pub bytes: Seq<u8>,
    pub matched: bool,
}

impl View for Piece {
    type V = PieceView;

    open spec fn view(&self) -> PieceView {
        PieceView { bytes: encode_utf8(self.text@), matched: self.matched }
    }
}

/// The views of a sequence of pieces.
pub open spec fn piece_views(s: Seq<Piece>) -> Seq<PieceView> {
    Seq::new(s.len(), |i: int| s[i]@)
}

/// Where the `n`-th range has to begin at the earliest: at the end of the one
/// before it.
pub open spec fn end_before(ranges: Seq<(usize, usize)>, n: int) -> int {
    if n <= 0 {
        0
    } else {
        ranges[n - 1].1 as int
    }
}

/// Whether the first `n` ranges can be cut out of a text of these bytes: each
/// begins where the one before it ended or later, ends within the text and not
/// before it begins, and begins and ends between two characters.
pub open spec fn cuttable(bytes: Seq<u8>, ranges: Seq<(usize, usize)>, n: int) -> bool
    decreases n,
{
    if n <= 0 {
        true
    } else {
        let (start, end) = ranges[n - 1];
        &&& cuttable(bytes, ranges, n - 1)
        &&& end_before(ranges, n - 1) <= start <= end <= bytes.len()
        &&& is_char_boundary(bytes, start as int)
        &&& is_char_boundary(bytes, end as int)
    }
}

/// The pieces up to the end of the `n`-th range: before each range what lies
/// between it and the one before, if anything does, and then the range itself,
/// as a match.
pub open spec fn pieces_upto(bytes: Seq<u8>, ranges: Seq<(usize, usize)>, n: int) -> Seq<PieceView>
    decreases n,
{
    if n <= 0 {
        Seq::empty()
    } else {
        let (start, end) = ranges[n - 1];
        let before = pieces_upto(bytes, ranges, n - 1);
        let last = end_before(ranges, n - 1);
        (if start > last {
            before.push(PieceView { bytes: bytes.subrange(last, start as int), matched: false })
        } else {
            before
        }).push(PieceView { bytes: bytes.subrange(start as int, end as int), matched: true })
    }
}

/// The pieces of a text cut at the ranges: those up to the last range, and
/// what is left of the text after it, if anything is. Ranges that cannot be
/// cut out leave the text in one piece.
pub open spec fn pieces_of(bytes: Seq<u8>, ranges: Seq<(usize, usize)>) -> Seq<PieceView> {
    let n = ranges.len() as int;
    if cuttable(bytes, ranges, n) {
        if end_before(ranges, n) < bytes.len() {
            pieces_upto(bytes, ranges, n).push(
                PieceView {
                    bytes: bytes.subrange(end_before(ranges, n), bytes.len() as int),
                    matched: false,
                },
            )
        } else {
            pieces_upto(bytes, ranges, n)
        }
    } else {
        seq![PieceView { bytes, matched: false }]
    }
}

/// A place between two characters of a text lies between two characters of
/// every beginning of the text that ends between two characters.
proof fn lemma_boundary_of_prefix(bytes: Seq<u8>, from: int, to: int)
    requires
        vstd::utf8::valid_utf8(bytes),
        0 <= from <= to <= bytes.len(),
        is_char_boundary(bytes, from),
        is_char_boundary(bytes, to),
    ensures
        vstd::utf8::valid_utf8(bytes.subrange(0, to)),
        is_char_boundary(bytes.subrange(0, to), from),
{
    vstd::utf8::valid_utf8_split(bytes, to);
    let prefix = bytes.subrange(0, to);
    if from == to {
        vstd::utf8::is_char_boundary_start_end_of_seq(prefix);
    } else {
        vstd::utf8::is_char_boundary_iff_not_is_continuation_byte(bytes, from);
        vstd::utf8::is_char_boundary_iff_not_is_continuation_byte(prefix, from);
        assert(prefix[from] == bytes[from]);
    }
}

/// The part of `text` from the byte `from` to the byte `to`.
fn slice<'a>(text: &'a str, from: usize, to: usize) -> (part: &'a str)
    requires
        from <= to <= text.spec_bytes().len(),
        is_char_boundary(text.spec_bytes(), from as int),
        is_char_boundary(text.spec_bytes(), to as int),
    ensures
        part.spec_bytes() == text.spec_bytes().subrange(from as int, to as int),
{
    proof {
        vstd::utf8::encode_utf8_valid_utf8(text@);
        lemma_boundary_of_prefix(text.spec_bytes(), from as int, to as int);
    }
    let (head, _) = text.split_at(to);
    let (_, part) = head.split_at(from);
    proof {
        assert(head.spec_bytes().subrange(from as int, head.spec_bytes().len() as int)
            =~= text.spec_bytes().subrange(from as int, to as int));
    }
    part
}

/// Ranges of which the first `n` cannot be cut out cannot be cut out at all.
proof fn lemma_not_cuttable(bytes: Seq<u8>, ranges: Seq<(usize, usize)>, n: int, m: int)
    requires
        0 <= n <= m,
        !cuttable(bytes, ranges, n),
    ensures
        !cuttable(bytes, ranges, m),
    decreases m - n,
{
    if n < m {
        lemma_not_cuttable(bytes, ranges, n, m - 1);
    }
}

/// Cuts a text at the ranges of its search matches.
///
/// Between the matches, before the first and after the last stand the pieces
/// that are no match; an empty one is left out. Ranges that do not lie one
/// after the other within the text, between characters, leave the text in one
/// piece.
pub fn highlight(text: &str, ranges: &Vec<(usize, usize)>) -> (r: Vec<Piece>)
    ensures
        piece_views(r@) == pieces_of(text.spec_bytes(), ranges@),
{
    let ghost bytes = text.spec_bytes();
    proof {
        vstd::utf8::encode_utf8_valid_utf8(text@);
        vstd::utf8::is_char_boundary_start_end_of_seq(bytes);
    }
    let len = text.as_bytes().len();
    let mut pieces: Vec<Piece> = Vec::new();
    let mut last: usize = 0;
    let mut i: usize = 0;
    proof {
        assert(piece_views(pieces@) =~= Seq::empty());
    }
    while i < ranges.len()
        invariant
            bytes == text.spec_bytes(),
            len == bytes.len(),
            vstd::utf8::valid_utf8(bytes),
            is_char_boundary(bytes, bytes.len() as int),
            i <= ranges@.len(),
            cuttable(bytes, ranges@, i as int),
            last == end_before(ranges@, i as int),
            last <= bytes.len(),
            is_char_boundary(bytes, last as int),
            piece_views(pieces@) == pieces_upto(bytes, ranges@, i as int),
        decreases ranges.len() - i,
    {
        let (start, end) = ranges[i];
        if !(last <= start && start <= end && end <= len && text.is_char_boundary(start)
            && text.is_char_boundary(end)) {
            proof {
                lemma_not_cuttable(bytes, ranges@, i + 1, ranges@.len() as int);
            }
            let mut whole: Vec<Piece> = Vec::new();
            whole.push(Piece { text: String::from_str(text), matched: false });
            proof {
                assert(piece_views(whole@) =~= seq![PieceView { bytes, matched: false }]);
            }
            return whole;
        }
        let ghost before = piece_views(pieces@);
        if start > last {
            let gap = slice(text, last, start);
            pieces.push(Piece { text: String::from_str(gap), matched: false });
            proof {
                assert(piece_views(pieces@) =~= before.push(
                    PieceView { bytes: bytes.subrange(last as int, start as int), matched: false },
                ));
            }
        }
        let ghost middle = piece_views(pieces@);
        let matched = slice(text, start, end);
        pieces.push(Piece { text: String::from_str(matched), matched: true });
        proof {
            assert(piece_views(pieces@) =~= middle.push(
                PieceView { bytes: bytes.subrange(start as int, end as int), matched: true },
            ));
        }
        last = end;
        i = i + 1;
    }
    if last < len {
        let ghost before = piece_views(pieces@);
        let rest = slice(text, last, len);
        pieces.push(Piece { text: String::from_str(rest), matched: false });
        proof {
            assert(piece_views(pieces@) =~= before.push(
                PieceView { bytes: bytes.subrange(last as int, bytes.len() as int), matched: false },
            ));
        }
    }
    pieces
}

/// A piece of text and the style it is drawn in.
#[derive(Debug)]
pub struct Span {
    pub text: String,
    pub style: Style,
}

/// What a `Span` is in contracts.
pub struct SpanView {
    pub text: Seq<char>,
    pub style: Style,
}

impl View for Span {
    type V = SpanView;

    open spec fn view(&self) -> SpanView {
        SpanView { text: self.text@, style: self.style }
    }
}

/// The views of a sequence of spans.
pub open spec fn span_views(s: Seq<Span>) -> Seq<SpanView> {
    Seq::new(s.len(), |i: int| s[i]@)
}

/// The style of a search match: bold black on yellow.
pub open spec fn match_style() -> Style {
    Style { fg: Some(Color::Black), bg: Some(Color::Yellow), bold: true, reversed: false }
}

/// The span of a piece: a match stands out, the rest is plain.
pub open spec fn span_of(p: PieceView) -> SpanView {
    SpanView {
        text: vstd::utf8::decode_utf8(p.bytes),
        style: if p.matched {
            match_style()
        } else {
            Style::plain()
        },
    }
}

/// The second of the day that a time falls on.
pub open spec fn second_of_day(t: Timestamp) -> int {
    (t.secs as int) % 86400
}

/// The milliseconds into its second that a time falls on; at most 999.
pub open spec fn millis_of(t: Timestamp) -> int {
    if t.nanos / 1_000_000 > 999 {
        999
    } else {
        (t.nanos / 1_000_000) as int
    }
}

/// A time as hours, minutes, seconds and milliseconds of its day, with a
/// space after it.
pub open spec fn time_text(t: Timestamp) -> Seq<char> {
    let s = second_of_day(t);
    let ms = millis_of(t);
    two_digits((s / 3600) as nat) + seq![':'] + two_digits(((s / 60) % 60) as nat) + seq![':']
        + two_digits((s % 60) as nat) + seq!['.', digit_char(ms / 100)] + two_digits(
        (ms % 100) as nat,
    ) + seq![' ']
}

/// The spans of the log line itself: cut at the matches of the search, if
/// there is one, and else in one plain piece.
pub open spec fn body_spans(line: Seq<char>, search: Option<Seq<char>>) -> Seq<SpanView> {
    match search {
        Some(p) => {
            let pieces = pieces_of(vstd::utf8::encode_utf8(line), pattern_ranges(p, line));
            Seq::new(pieces.len(), |i: int| span_of(pieces[i]))
        },
        None => seq![SpanView { text: line, style: Style::plain() }],
    }
}

/// The spans of a line of the log view: the time in dark gray if times are
/// shown, the prefix in the colour of the pod and a space if prefixes are
/// shown, and the log line with the matches of the search standing out.
pub open spec fn line_spans(
    msg: LogMessageView,
    search: Option<Seq<char>>,
    show_timestamps: bool,
    show_prefix: bool,
) -> Seq<SpanView> {
    (if show_timestamps {
        seq![
            SpanView {
                text: time_text(msg.timestamp),
                style: Style { fg: Some(Color::DarkGray), ..Style::plain() },
            },
        ]
    } else {
        Seq::empty()
    }) + (if show_prefix {
        seq![
            SpanView {
                text: prefix_of(msg),
                style: Style {
                    fg: Some(tui_palette()[palette_slot(str_hash(color_key_of(msg)))]),
                    ..Style::plain()
                },
            },
            SpanView { text: seq![' '], style: Style::plain() },
        ]
    } else {
        Seq::empty()
    }) + body_spans(msg.line, search)
}

/// A time as hours, minutes, seconds and milliseconds of its day, with a
/// space after it.
pub fn format_time(t: Timestamp) -> (r: String)
    ensures
        r@ == time_text(t),
{
    let s: u64 = if t.secs >= 0 {
        (t.secs as u64) % 86400
    } else {
        let back: u64 = (-(t.secs + 1)) as u64;
        86399 - back % 86400
    };
    proof {
        lemma_second_of_day(t.secs as int, s as int);
    }
    let ms: u64 = if t.nanos / 1_000_000 > 999 {
        999
    } else {
        (t.nanos / 1_000_000) as u64
    };
    let mut r = String::new();
    push_two_digits(&mut r, s / 3600);
    r.push(':');
    push_two_digits(&mut r, (s / 60) % 60);
    r.push(':');
    push_two_digits(&mut r, s % 60);
    r.push('.');
    r.push(crate::text::digit_for((ms / 100) as u8));
    push_two_digits(&mut r, ms % 100);
    r.push(' ');
    proof {
        assert(r@ =~= time_text(t));
    }
    r
}

/// The second of the day of a time before the epoch, counted back from the
/// end of its day.
proof fn lemma_second_of_day(secs: int, s: int)
    requires
        s == if secs >= 0 {
            secs % 86400
        } else {
            86399 - (-(secs + 1)) % 86400
        },
    ensures
        s == secs % 86400,
        0 <= s < 86400,
{
    if secs < 0 {
        let back = -(secs + 1);
        assert(secs % 86400 == 86399 - back % 86400) by (nonlinear_arith)
            requires
                back == -(secs + 1),
                back >= 0,
        ;
    }
}

/// The spans of the log line itself.
fn body_of(line: &str, search: &Option<Grep>) -> (r: Vec<Span>)
    ensures
        span_views(r@) == body_spans(
            line@,
            match *search {
                Some(g) => Some(g.source()),
                None => None,
            },
        ),
{
    let mut spans: Vec<Span> = Vec::new();
    match search {
        Some(g) => {
            let ranges = g.ranges(line);
            let pieces = highlight(line, &ranges);
            let ghost expected = pieces_of(line.spec_bytes(), ranges@);
            let mut i: usize = 0;
            while i < pieces.len()
                invariant
                    i <= pieces@.len(),
                    piece_views(pieces@) == expected,
                    spans@.len() == i,
                    forall|j: int| 0 <= j < i ==> (#[trigger] spans@[j])@ == span_of(expected[j]),
                decreases pieces.len() - i,
            {
                let piece = &pieces[i];
                let style = if piece.matched {
                    Style::default().fg(Color::Black).bg(Color::Yellow).bold()
                } else {
                    Style::default()
                };
                proof {
                    vstd::utf8::encode_utf8_decode_utf8(piece.text@);
                    assert(expected[i as int] == piece@);
                }
                spans.push(Span { text: piece.text.clone(), style });
                i = i + 1;
            }
            proof {
                assert(span_views(spans@) =~= Seq::new(
                    expected.len(),
                    |i: int| span_of(expected[i]),
                ));
            }
        },
        None => {
            spans.push(Span { text: String::from_str(line), style: Style::default() });
            proof {
                assert(span_views(spans@) =~= seq![
                    SpanView { text: line@, style: Style::plain() },
                ]);
            }
        },
    }
    spans
}

/// The spans of a line of the log view, with the search compiled already.
pub fn format_line(
    msg: &LogMessage,
    search: &Option<Grep>,
    show_timestamps: bool,
    show_prefix: bool,
) -> (r: Vec<Span>)
    ensures
        span_views(r@) == line_spans(
            msg@,
            match *search {
                Some(g) => Some(g.source()),
                None => None,
            },
            show_timestamps,
            show_prefix,
        ),
{
    let mut spans: Vec<Span> = Vec::new();
    if show_timestamps {
        spans.push(
            Span { text: format_time(msg.timestamp), style: Style::default().fg(Color::DarkGray) },
        );
    }
    if show_prefix {
        let color = get_color(color_key(msg).as_str());
        spans.push(Span { text: format_prefix(msg), style: Style::default().fg(color) });
        let mut space = String::new();
        space.push(' ');
        spans.push(Span { text: space, style: Style::default() });
    }
    let ghost head = span_views(spans@);
    let mut body = body_of(msg.line.as_str(), search);
    let ghost tail = span_views(body@);
    spans.append(&mut body);
    proof {
        assert(span_views(spans@) =~= head + tail);
        assert(span_views(spans@) =~= line_spans(
            msg@,
            match *search {
                Some(g) => Some(g.source()),
                None => None,
            },
            show_timestamps,
            show_prefix,
        ));
    }
    spans
}

/// The search that the pattern stands for: none where the pattern is empty or
/// does not compile.
pub fn compile_search(pattern: &str) -> (r: Option<Grep>)
    ensures
        (match r {
            Some(g) => Some(g.source()),
            None => None,
        }) == line_pattern(pattern@),
{
    if pattern.unicode_len() > 0 {
        Grep::compile_ignoring_case(pattern)
    } else {
        None
    }
}

/// The log view: the lines to show, and how.
pub struct LogView<'a> {
    pub logs: Vec<&'a LogMessage>,
    pub scroll_offset: usize,
    pub search_pattern: &'a str,
    pub show_timestamps: bool,
    pub show_prefix: bool,
}

impl<'a> LogView<'a> {
    /// A log view of these lines.
    pub fn new(
        logs: Vec<&'a LogMessage>,
        scroll_offset: usize,
        search_pattern: &'a str,
        show_timestamps: bool,
        show_prefix: bool,
    ) -> (view: Self)
        ensures
            view.logs@ == logs@,
            view.scroll_offset == scroll_offset,
            view.search_pattern@ == search_pattern@,
            view.show_timestamps == show_timestamps,
            view.show_prefix == show_prefix,
    {
        LogView { logs, scroll_offset, search_pattern, show_timestamps, show_prefix }
    }

    /// The spans of one line.
    pub fn format_log_line(&self, msg: &LogMessage) -> (r: Vec<Span>)
        ensures
            span_views(r@) == line_spans(
                msg@,
                line_pattern(self.search_pattern@),
                self.show_timestamps,
                self.show_prefix,
            ),
    {
        let search = compile_search(self.search_pattern);
        format_line(msg, &search, self.show_timestamps, self.show_prefix)
    }

    /// How many lines the view is scrolled by, as the terminal counts them.
    pub fn scroll(&self) -> (r: u16)
        ensures
            r == self.scroll_offset % 0x10000,
    {
        (self.scroll_offset % 0x10000) as u16
    }
}

} // verus!
