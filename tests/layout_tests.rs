use text_layout::font::Font;
use text_layout::geometry::{Color, Offset, Point, Rect};
use text_layout::layout::{LayoutResult, PageBreaking, TextStyle};
use text_layout::render::{TextNoop, TextRenderer};
use text_layout::span::{LineBreaking, Span};
use text_layout::tokenizer::{Op, Token, Tokenizer};

fn mono() -> Font {
    Font::monospace(6, 8)
}

fn style(bounds: Rect, breaking: LineBreaking, paging: PageBreaking) -> TextStyle {
    TextStyle {
        bounds,
        background_color: Color::new(0),
        text_color: Color::new(0xffff),
        text_font: mono(),
        line_breaking: breaking,
        hyphen_font: mono(),
        hyphen_color: Color::new(0x07e0),
        page_breaking: paging,
        ellipsis_font: mono(),
        ellipsis_color: Color::new(0xf800),
    }
}

fn all_tokens(format: &str) -> Vec<Token<'_>> {
    let mut tokenizer = Tokenizer::new(format);
    let mut out = Vec::new();
    while let Some(token) = tokenizer.next() {
        out.push(token);
    }
    out
}

#[test]
fn tokenizes_literals_and_arguments() {
    let tokens = all_tokens("Nice to meet {you}, where you been?");
    assert_eq!(
        tokens,
        vec![
            Token::Literal(b"Nice to meet "),
            Token::Argument(b"you"),
            Token::Literal(b", where you been?"),
        ]
    );
}

#[test]
fn unterminated_argument_is_dropped() {
    assert_eq!(all_tokens("abc{unterminated"), vec![Token::Literal(b"abc")]);
}

#[test]
fn tokenizer_stays_empty_after_unterminated_argument() {
    let mut tokenizer = Tokenizer::new("{open");
    assert!(tokenizer.next().is_none());
    assert!(tokenizer.next().is_none());
}

#[test]
fn tokenizes_empty_and_adjacent_arguments() {
    assert!(all_tokens("").is_empty());
    assert_eq!(
        all_tokens("{a}{}x"),
        vec![Token::Argument(b"a"), Token::Argument(b""), Token::Literal(b"x")]
    );
}

#[test]
fn into_ops_resolves_and_drops_arguments() {
    let ops = Tokenizer::new("Hi {name}{unknown}!{red}").into_ops(|arg: &[u8]| {
        if arg == b"name" {
            Some(Op::Text(b"Joe"))
        } else if arg == b"red" {
            Some(Op::Color(Color::new(0xf800)))
        } else {
            None
        }
    });
    assert_eq!(ops.len(), 4);
    assert!(matches!(ops[0], Op::Text(t) if t == b"Hi "));
    assert!(matches!(ops[1], Op::Text(t) if t == b"Joe"));
    assert!(matches!(ops[2], Op::Text(t) if t == b"!"));
    assert!(matches!(ops[3], Op::Color(c) if c == Color::new(0xf800)));
}

#[test]
fn fit_whole_text_when_it_fits() {
    let span = Span::fit_horizontally(b"hello world", 66, mono(), mono(), LineBreaking::BreakAtWhitespace);
    assert_eq!(span.length, 11);
    assert_eq!(span.skip_next_chars, 0);
    assert_eq!(span.advance, Offset::new(66, 0));
    assert!(!span.insert_hyphen_before_line_break);
}

#[test]
fn fit_breaks_before_whitespace() {
    let span = Span::fit_horizontally(b"abcdefg hij", 45, mono(), mono(), LineBreaking::BreakAtWhitespace);
    assert_eq!(span.length, 7);
    assert_eq!(span.skip_next_chars, 1);
    assert_eq!(span.advance, Offset::new(42, 8));
    assert!(!span.insert_hyphen_before_line_break);
}

#[test]
fn fit_hyphenates_long_word() {
    let span = Span::fit_horizontally(
        b"abcdefghij",
        40,
        mono(),
        mono(),
        LineBreaking::BreakWordsAndInsertHyphen,
    );
    assert_eq!(span.length, 5);
    assert_eq!(span.skip_next_chars, 0);
    assert_eq!(span.advance, Offset::new(30, 8));
    assert!(span.insert_hyphen_before_line_break);
}

#[test]
fn fit_hyphenates_first_word_even_at_whitespace_policy() {
    let span = Span::fit_horizontally(b"abcdefghij", 40, mono(), mono(), LineBreaking::BreakAtWhitespace);
    assert_eq!(span.length, 5);
    assert!(span.insert_hyphen_before_line_break);
}

#[test]
fn fit_prefers_whitespace_over_later_hyphen_at_whitespace_policy() {
    let span = Span::fit_horizontally(b"ab cdefghij", 40, mono(), mono(), LineBreaking::BreakAtWhitespace);
    assert_eq!(span.length, 2);
    assert_eq!(span.skip_next_chars, 1);
    assert!(!span.insert_hyphen_before_line_break);
}

#[test]
fn fit_breaks_at_line_feed_and_carriage_return() {
    let lf = Span::fit_horizontally(b"ab\ncd", 100, mono(), mono(), LineBreaking::BreakAtWhitespace);
    assert_eq!((lf.length, lf.skip_next_chars), (2, 1));
    assert_eq!(lf.advance, Offset::new(12, 8));
    let cr = Span::fit_horizontally(b"ab\rcd", 100, mono(), mono(), LineBreaking::BreakAtWhitespace);
    assert_eq!((cr.length, cr.skip_next_chars), (2, 1));
    assert_eq!(cr.advance, Offset::new(12, 4));
    let first = Span::fit_horizontally(b"\nab", 0, mono(), mono(), LineBreaking::BreakAtWhitespace);
    assert_eq!((first.length, first.skip_next_chars), (0, 1));
    assert_eq!(first.advance, Offset::new(0, 8));
}

#[test]
fn fit_nothing_fits() {
    let span = Span::fit_horizontally(b"abc", 5, mono(), mono(), LineBreaking::BreakWordsAndInsertHyphen);
    assert_eq!((span.length, span.skip_next_chars), (0, 0));
    assert_eq!(span.advance, Offset::new(0, 8));
    assert!(!span.insert_hyphen_before_line_break);
}

#[test]
fn font_widths_per_byte() {
    let mut widths = [5u8; 256];
    widths[b'i' as usize] = 2;
    let font = Font::new(widths, 10);
    assert_eq!(font.char_width(b'i'), 2);
    assert_eq!(font.char_width(b'm'), 5);
    assert_eq!(font.line_height(), 10);
    let span = Span::fit_horizontally(b"iim", 9, font, font, LineBreaking::BreakAtWhitespace);
    assert_eq!(span.length, 3);
    assert_eq!(span.advance, Offset::new(9, 0));
}

const LONG: &[u8] = b"Hello world this is a long text that overflows";

#[test]
fn layout_overflow_inserts_one_ellipsis_before_overflow() {
    let s = style(Rect::new(0, 0, 60, 20), LineBreaking::BreakAtWhitespace, PageBreaking::CutAndInsertEllipsis);
    let mut cursor = s.bounds.top_left();
    let mut sink = TextRenderer::new();
    let result = s.layout_text(LONG, &mut cursor, &mut sink);
    assert_eq!(result, LayoutResult::OutOfBounds);
    assert_eq!(cursor, Point::new(54, 16));
    let drawn: Vec<(Point, Vec<u8>)> = sink.commands().iter().map(|d| (d.at, d.text.clone())).collect();
    assert_eq!(
        drawn,
        vec![
            (Point::new(0, 0), b"Hello".to_vec()),
            (Point::new(0, 8), b"world this".to_vec()),
            (Point::new(0, 16), b"is a long".to_vec()),
            (Point::new(54, 16), b"...".to_vec()),
        ]
    );
    let last = sink.commands().last().unwrap();
    assert_eq!(last.font.line_height(), 8);
    assert_eq!(last.foreground, Color::new(0xf800));
}

#[test]
fn layout_overflow_with_cut_draws_no_ellipsis() {
    let s = style(Rect::new(0, 0, 60, 20), LineBreaking::BreakAtWhitespace, PageBreaking::Cut);
    let mut cursor = s.bounds.top_left();
    let mut sink = TextRenderer::new();
    assert_eq!(s.layout_text(LONG, &mut cursor, &mut sink), LayoutResult::OutOfBounds);
    assert_eq!(sink.commands().len(), 3);
    assert!(sink.commands().iter().all(|d| d.text != b"...".to_vec()));
}

#[test]
fn layout_hyphen_suppresses_ellipsis() {
    let s = style(Rect::new(0, 0, 40, 4), LineBreaking::BreakWordsAndInsertHyphen, PageBreaking::CutAndInsertEllipsis);
    let mut cursor = s.bounds.top_left();
    let mut sink = TextRenderer::new();
    assert_eq!(s.layout_text(b"abcdefghij", &mut cursor, &mut sink), LayoutResult::OutOfBounds);
    let drawn: Vec<(Point, Vec<u8>)> = sink.commands().iter().map(|d| (d.at, d.text.clone())).collect();
    assert_eq!(
        drawn,
        vec![(Point::new(0, 0), b"abcde".to_vec()), (Point::new(30, 0), b"-".to_vec())]
    );
    assert_eq!(sink.commands()[1].foreground, Color::new(0x07e0));
}

#[test]
fn layout_fitting_text_moves_cursor() {
    let s = style(Rect::new(10, 0, 100, 100), LineBreaking::BreakAtWhitespace, PageBreaking::Cut);
    let mut cursor = Point::new(10, 0);
    let mut sink = TextNoop::new();
    assert_eq!(s.layout_text(b"ab\ncd", &mut cursor, &mut sink), LayoutResult::Fitting);
    assert_eq!(cursor, Point::new(22, 8));
}

#[test]
fn layout_ops_applies_style_changes() {
    let s = style(Rect::new(0, 0, 100, 100), LineBreaking::BreakAtWhitespace, PageBreaking::Cut);
    let wide = Font::monospace(10, 12);
    let ops = [
        Op::Text(b"ab"),
        Op::Color(Color::new(0x001f)),
        Op::Font(wide),
        Op::Text(b"cd"),
    ];
    let mut cursor = Point::new(0, 0);
    let mut sink = TextRenderer::new();
    assert_eq!(s.layout_ops(&ops, &mut cursor, &mut sink), LayoutResult::Fitting);
    assert_eq!(cursor, Point::new(32, 0));
    let cmds = sink.commands();
    assert_eq!(cmds.len(), 2);
    assert_eq!(cmds[0].foreground, Color::new(0xffff));
    assert_eq!(cmds[1].at, Point::new(12, 0));
    assert_eq!(cmds[1].foreground, Color::new(0x001f));
    assert_eq!(cmds[1].font.char_width(b'c'), 10);
}

#[test]
fn layout_ops_stops_at_overflow() {
    let s = style(Rect::new(0, 0, 60, 4), LineBreaking::BreakAtWhitespace, PageBreaking::CutAndInsertEllipsis);
    let ops = [Op::Text(b"one two three four"), Op::Text(b"never")];
    let mut cursor = Point::new(0, 0);
    let mut sink = TextRenderer::new();
    assert_eq!(s.layout_ops(&ops, &mut cursor, &mut sink), LayoutResult::OutOfBounds);
    assert!(sink.commands().iter().all(|d| d.text != b"never".to_vec()));
    assert_eq!(sink.commands().last().unwrap().text, b"...".to_vec());
}

#[test]
fn layout_is_deterministic() {
    let s = style(Rect::new(0, 0, 60, 20), LineBreaking::BreakAtWhitespace, PageBreaking::CutAndInsertEllipsis);
    let run = || {
        let mut cursor = Point::new(0, 0);
        let mut sink = TextRenderer::new();
        let r = s.layout_ops(&[Op::Text(LONG)], &mut cursor, &mut sink);
        let drawn: Vec<(Point, Vec<u8>)> = sink.commands().iter().map(|d| (d.at, d.text.clone())).collect();
        (r, cursor, drawn)
    };
    assert_eq!(run(), run());
}

#[test]
fn render_format_draws_from_top_left() {
    let s = style(Rect::new(5, 7, 200, 100), LineBreaking::BreakAtWhitespace, PageBreaking::Cut);
    let renderer = s
        .render_format("Hi {name}!", |arg: &[u8]| if arg == b"name" { Some(Op::Text(b"Joe")) } else { None })
        .unwrap();
    let drawn: Vec<(Point, Vec<u8>)> = renderer.commands().iter().map(|d| (d.at, d.text.clone())).collect();
    assert_eq!(
        drawn,
        vec![
            (Point::new(5, 7), b"Hi ".to_vec()),
            (Point::new(23, 7), b"Joe".to_vec()),
            (Point::new(41, 7), b"!".to_vec()),
        ]
    );
}

#[test]
fn render_format_refuses_coordinates_out_of_range() {
    let s = style(Rect::new(i32::MAX - 10, 0, i32::MAX, 100), LineBreaking::BreakAtWhitespace, PageBreaking::Cut);
    assert!(s.render_format("long enough", |_: &[u8]| None).is_none());
}

#[test]
fn layout_overflow_with_nothing_left_draws_no_ellipsis() {
    let s = style(Rect::new(0, 0, 60, 4), LineBreaking::BreakAtWhitespace, PageBreaking::CutAndInsertEllipsis);
    let mut cursor = Point::new(0, 0);
    let mut sink = TextRenderer::new();
    assert_eq!(s.layout_text(b"ab\n", &mut cursor, &mut sink), LayoutResult::OutOfBounds);
    assert_eq!(cursor, Point::new(12, 0));
    assert_eq!(sink.commands().len(), 1);
    assert_eq!(sink.commands()[0].text, b"ab".to_vec());
}
