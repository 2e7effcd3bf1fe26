use vstd::prelude::*;

use crate::font::{Font, MAX_CHAR_WIDTH};
use crate::geometry::Offset;

verus! {

pub const ASCII_LF: u8 = 10;

pub const ASCII_CR: u8 = 13;

pub const ASCII_SPACE: u8 = 32;

pub const ASCII_HYPHEN: u8 = 45;

/// How a line may be broken when a word does not fit.
#[derive(Copy, Clone, Debug, PartialEq, Eq, Structural)]
pub enum LineBreaking {
    /// Break line only at whitespace, if possible. If we don't find any
    /// whitespace, break words.
    BreakAtWhitespace,
    /// Break words, adding a hyphen before the line-break. Does not use any
    /// smart algorithm, just char-by-char.
    BreakWordsAndInsertHyphen,
}

/// One line's worth of text, as fitted against a width budget.
#[derive(Copy, Clone, Debug, PartialEq, Eq, Structural)]
pub struct Span {
    /// How many characters from the input text this span is laying out.
    pub length: usize,
    /// How many chars from the input text should we skip before fitting the
    /// next span?
    pub skip_next_chars: usize,
    /// By how much to offset the cursor after this span. If the vertical offset
    /// is bigger than zero, it means we are breaking the line.
    pub advance: Offset,
    /// If we are breaking the line, should we insert a hyphen right after this
    /// span to indicate a word-break?
    pub insert_hyphen_before_line_break: bool,
}

/// Space, line feed and carriage return: the bytes at which a line may break.
pub open spec fn is_line_separator(ch: u8) -> bool {
    ch == ASCII_SPACE || ch == ASCII_LF || ch == ASCII_CR
}

/// The total advance width of the first `n` bytes of `text`.
pub open spec fn prefix_width(font: Font, text: Seq<u8>, n: int) -> int
    decreases n,
{
    if n <= 0 {
        0
    } else {
        prefix_width(font, text, n - 1) + font.width_of(text[n - 1])
    }
}

/// The total advance width of `text`.
pub open spec fn text_width(font: Font, text: Seq<u8>) -> int {
    prefix_width(font, text, text.len() as int)
}

/// Whether the line may be broken inside a word, given whether a whitespace
/// has already been seen on it.
pub open spec fn may_break_word(breaking: LineBreaking, found_any_whitespace: bool) -> bool {
    breaking is BreakWordsAndInsertHyphen || !found_any_whitespace
}

/// The line break that is returned when not even one byte fits: nothing laid
/// out, nothing skipped, a full line down.
pub open spec fn no_fit(text_font: Font) -> Span {
    Span {
        length: 0,
        skip_next_chars: 0,
        advance: Offset { x: 0, y: text_font.height() as i32 },
        insert_hyphen_before_line_break: false,
    }
}

/// The scan of the line fitter from byte `i` on, where `line` is the best
/// breakpoint found so far, `span_width` the width of the bytes before `i` and
/// `found_ws` whether a space was among them.
pub open spec fn fit_scan(
    text: Seq<u8>,
    i: int,
    max_width: int,
    text_font: Font,
    hyphen_font: Font,
    breaking: LineBreaking,
    line: Span,
    span_width: int,
    found_ws: bool,
) -> Span
    decreases text.len() - i,
{
    if i < 0 || i >= text.len() {
        Span {
            length: text.len() as usize,
            skip_next_chars: 0,
            advance: Offset { x: span_width as i32, y: 0 },
            insert_hyphen_before_line_break: false,
        }
    } else {
        let ch = text[i];
        let char_width = text_font.width_of(ch);
        if is_line_separator(ch) {
            let dy = if ch == ASCII_CR {
                text_font.height() / 2
            } else {
                text_font.height()
            };
            let at_whitespace = Span {
                length: i as usize,
                skip_next_chars: 1,
                advance: Offset { x: span_width as i32, y: dy as i32 },
                insert_hyphen_before_line_break: false,
            };
            if ch == ASCII_LF || ch == ASCII_CR {
                at_whitespace
            } else {
                fit_scan(
                    text,
                    i + 1,
                    max_width,
                    text_font,
                    hyphen_font,
                    breaking,
                    at_whitespace,
                    span_width + char_width,
                    true,
                )
            }
        } else if span_width + char_width > max_width {
            line
        } else {
            let hyphenate = span_width + char_width + hyphen_font.width_of(ASCII_HYPHEN)
                <= max_width && may_break_word(breaking, found_ws);
            let next_line = if hyphenate {
                Span {
                    length: (i + 1) as usize,
                    skip_next_chars: 0,
                    advance: Offset {
                        x: (span_width + char_width) as i32,
                        y: text_font.height() as i32,
                    },
                    insert_hyphen_before_line_break: true,
                }
            } else {
                line
            };
            fit_scan(
                text,
                i + 1,
                max_width,
                text_font,
                hyphen_font,
                breaking,
                next_line,
                span_width + char_width,
                found_ws,
            )
        }
    }
}

/// The span that the line fitter returns for `text` under a width budget of
/// `max_width`.
pub open spec fn fit_spec(
    text: Seq<u8>,
    max_width: int,
    text_font: Font,
    hyphen_font: Font,
    breaking: LineBreaking,
) -> Span {
    fit_scan(text, 0, max_width, text_font, hyphen_font, breaking, no_fit(text_font), 0, false)
}

/// Widths of prefixes grow with their length.
pub proof fn lemma_prefix_width_monotone(font: Font, text: Seq<u8>, a: int, b: int)
    requires
        a <= b,
    ensures
        0 <= prefix_width(font, text, a) <= prefix_width(font, text, b),
    decreases b - a,
{
    if a < b {
        lemma_prefix_width_monotone(font, text, a, b - 1);
        font.lemma_width_bounds(text[b - 1]);
    } else {
        lemma_prefix_width_nonneg(font, text, a);
    }
}

proof fn lemma_prefix_width_nonneg(font: Font, text: Seq<u8>, n: int)
    ensures
        0 <= prefix_width(font, text, n),
    decreases n,
{
    if n > 0 {
        lemma_prefix_width_nonneg(font, text, n - 1);
        font.lemma_width_bounds(text[n - 1]);
    }
}

/// What a span found by the scan always satisfies: it never reaches past the
/// text, its horizontal advance is the width of what it lays out, and a span
/// that consumes nothing moves down a line.
pub open spec fn span_shape(text_font: Font, text: Seq<u8>, span: Span) -> bool {
    &&& span.length + span.skip_next_chars <= text.len()
    &&& span.advance.x == prefix_width(text_font, text, span.length as int)
    &&& span.advance.y >= 0
    &&& span.length + span.skip_next_chars == 0 ==> span.advance.y > 0
}

proof fn lemma_fit_scan_shape(
    text: Seq<u8>,
    i: int,
    max_width: int,
    text_font: Font,
    hyphen_font: Font,
    breaking: LineBreaking,
    line: Span,
    span_width: int,
    found_ws: bool,
)
    requires
        0 <= i <= text.len(),
        0 < text.len() <= usize::MAX,
        text_font.height() > 0,
        text_width(text_font, text) <= i32::MAX,
        span_width == prefix_width(text_font, text, i),
        span_shape(text_font, text, line),
        line.length + line.skip_next_chars <= i,
    ensures
        span_shape(
            text_font,
            text,
            fit_scan(
                text,
                i,
                max_width,
                text_font,
                hyphen_font,
                breaking,
                line,
                span_width,
                found_ws,
            ),
        ),
    decreases text.len() - i,
{
    text_font.lemma_height_bounds();
    lemma_prefix_width_monotone(text_font, text, i, text.len() as int);
    if i < text.len() {
        let ch = text[i];
        let char_width = text_font.width_of(ch);
        lemma_prefix_width_monotone(text_font, text, i + 1, text.len() as int);
        if is_line_separator(ch) {
            let dy = if ch == ASCII_CR {
                text_font.height() / 2
            } else {
                text_font.height()
            };
            let at_whitespace = Span {
                length: i as usize,
                skip_next_chars: 1,
                advance: Offset { x: span_width as i32, y: dy as i32 },
                insert_hyphen_before_line_break: false,
            };
            if !(ch == ASCII_LF || ch == ASCII_CR) {
                lemma_fit_scan_shape(
                    text,
                    i + 1,
                    max_width,
                    text_font,
                    hyphen_font,
                    breaking,
                    at_whitespace,
                    span_width + char_width,
                    true,
                );
            }
        } else if span_width + char_width <= max_width {
            let hyphenate = span_width + char_width + hyphen_font.width_of(ASCII_HYPHEN)
                <= max_width && may_break_word(breaking, found_ws);
            let next_line = if hyphenate {
                Span {
                    length: (i + 1) as usize,
                    skip_next_chars: 0,
                    advance: Offset {
                        x: (span_width + char_width) as i32,
                        y: text_font.height() as i32,
                    },
                    insert_hyphen_before_line_break: true,
                }
            } else {
                line
            };
            lemma_fit_scan_shape(
                text,
                i + 1,
                max_width,
                text_font,
                hyphen_font,
                breaking,
                next_line,
                span_width + char_width,
                found_ws,
            );
        }
    }
}

/// The span that the line fitter returns has the shape of `span_shape`.
pub proof fn lemma_fit_shape(
    text: Seq<u8>,
    max_width: int,
    text_font: Font,
    hyphen_font: Font,
    breaking: LineBreaking,
)
    requires
        0 < text.len() <= usize::MAX,
        text_font.height() > 0,
        text_width(text_font, text) <= i32::MAX,
    ensures
        span_shape(text_font, text, fit_spec(text, max_width, text_font, hyphen_font, breaking)),
{
    text_font.lemma_height_bounds();
    lemma_fit_scan_shape(
        text,
        0,
        max_width,
        text_font,
        hyphen_font,
        breaking,
        no_fit(text_font),
        0,
        false,
    );
}

/// The width of `n` bytes is at most `MAX_CHAR_WIDTH` times `n`.
pub proof fn lemma_prefix_width_bound(font: Font, text: Seq<u8>, n: int)
    requires
        0 <= n <= text.len(),
    ensures
        prefix_width(font, text, n) <= MAX_CHAR_WIDTH * n,
    decreases n,
{
    if n > 0 {
        lemma_prefix_width_bound(font, text, n - 1);
        font.lemma_width_bounds(text[n - 1]);
    }
}

/// The span that the scan returns when it meets no overflow before position
/// `q`: the whole text where `q` is its end, else a break before the line feed
/// or carriage return at `q`.
pub open spec fn reached(text: Seq<u8>, q: int, text_font: Font) -> Span {
    if q >= text.len() {
        Span {
            length: text.len() as usize,
            skip_next_chars: 0,
            advance: Offset { x: text_width(text_font, text) as i32, y: 0 },
            insert_hyphen_before_line_break: false,
        }
    } else {
        Span {
            length: q as usize,
            skip_next_chars: 1,
            advance: Offset {
                x: prefix_width(text_font, text, q) as i32,
                y: (if text[q] == ASCII_CR {
                    text_font.height() / 2
                } else {
                    text_font.height()
                }) as i32,
            },
            insert_hyphen_before_line_break: false,
        }
    }
}

proof fn lemma_scan_reaches(
    text: Seq<u8>,
    i: int,
    q: int,
    max_width: int,
    text_font: Font,
    hyphen_font: Font,
    breaking: LineBreaking,
    line: Span,
    span_width: int,
    found_ws: bool,
)
    requires
        0 <= i <= q <= text.len(),
        q < text.len() ==> text[q] == ASCII_LF || text[q] == ASCII_CR,
        forall|j: int| i <= j < q ==> text[j] != ASCII_LF && text[j] != ASCII_CR,
        span_width == prefix_width(text_font, text, i),
        prefix_width(text_font, text, q) <= max_width,
    ensures
        fit_scan(text, i, max_width, text_font, hyphen_font, breaking, line, span_width, found_ws)
            == reached(text, q, text_font),
    decreases text.len() - i,
{
    if i < q {
        let ch = text[i];
        let char_width = text_font.width_of(ch);
        lemma_prefix_width_monotone(text_font, text, i + 1, q);
        if is_line_separator(ch) {
            let dy = if ch == ASCII_CR {
                text_font.height() / 2
            } else {
                text_font.height()
            };
            let at_whitespace = Span {
                length: i as usize,
                skip_next_chars: 1,
                advance: Offset { x: span_width as i32, y: dy as i32 },
                insert_hyphen_before_line_break: false,
            };
            lemma_scan_reaches(
                text,
                i + 1,
                q,
                max_width,
                text_font,
                hyphen_font,
                breaking,
                at_whitespace,
                span_width + char_width,
                true,
            );
        } else {
            let hyphenate = span_width + char_width + hyphen_font.width_of(ASCII_HYPHEN)
                <= max_width && may_break_word(breaking, found_ws);
            let next_line = if hyphenate {
                Span {
                    length: (i + 1) as usize,
                    skip_next_chars: 0,
                    advance: Offset {
                        x: (span_width + char_width) as i32,
                        y: text_font.height() as i32,
                    },
                    insert_hyphen_before_line_break: true,
                }
            } else {
                line
            };
            lemma_scan_reaches(
                text,
                i + 1,
                q,
                max_width,
                text_font,
                hyphen_font,
                breaking,
                next_line,
                span_width + char_width,
                found_ws,
            );
        }
    }
}

/// A text that holds no line feed or carriage return and whose whole width
/// fits the budget is laid out whole, on the same line and without a hyphen.
pub proof fn lemma_fit_whole(
    text: Seq<u8>,
    max_width: int,
    text_font: Font,
    hyphen_font: Font,
    breaking: LineBreaking,
)
    requires
        text.len() <= usize::MAX,
        text_width(text_font, text) <= i32::MAX,
        text_width(text_font, text) <= max_width,
        forall|j: int| 0 <= j < text.len() ==> text[j] != ASCII_LF && text[j] != ASCII_CR,
    ensures
        ({
            let r = fit_spec(text, max_width, text_font, hyphen_font, breaking);
            &&& r.length == text.len()
            &&& r.skip_next_chars == 0
            &&& r.advance == (Offset { x: text_width(text_font, text) as i32, y: 0 })
            &&& !r.insert_hyphen_before_line_break
        }),
{
    lemma_scan_reaches(
        text,
        0,
        text.len() as int,
        max_width,
        text_font,
        hyphen_font,
        breaking,
        no_fit(text_font),
        0,
        false,
    );
}

/// A line feed breaks the line right before it, with a full line of vertical
/// advance, and a carriage return with half a line, whenever the text before
/// it fits the budget and holds neither.
pub proof fn lemma_fit_hard_break(
    text: Seq<u8>,
    p: int,
    max_width: int,
    text_font: Font,
    hyphen_font: Font,
    breaking: LineBreaking,
)
    requires
        text.len() <= usize::MAX,
        0 <= p < text.len(),
        text[p] == ASCII_LF || text[p] == ASCII_CR,
        forall|j: int| 0 <= j < p ==> text[j] != ASCII_LF && text[j] != ASCII_CR,
        prefix_width(text_font, text, p) <= max_width,
        prefix_width(text_font, text, p) <= i32::MAX,
    ensures
        ({
            let r = fit_spec(text, max_width, text_font, hyphen_font, breaking);
            &&& r.length == p
            &&& r.skip_next_chars == 1
            &&& r.advance.x == prefix_width(text_font, text, p)
            &&& text[p] == ASCII_LF ==> r.advance.y == text_font.height()
            &&& text[p] == ASCII_CR ==> r.advance.y == text_font.height() / 2
            &&& !r.insert_hyphen_before_line_break
        }),
{
    text_font.lemma_height_bounds();
    lemma_prefix_width_monotone(text_font, text, 0, p);
    lemma_scan_reaches(
        text,
        0,
        p,
        max_width,
        text_font,
        hyphen_font,
        breaking,
        no_fit(text_font),
        0,
        false,
    );
}

/// Whether `line` is a hyphenated break after the longest prefix of the first
/// `i` bytes whose width, with a hyphen after it, fits `max_width`.
pub open spec fn best_hyphen_break(
    text: Seq<u8>,
    i: int,
    max_width: int,
    text_font: Font,
    hyphen_font: Font,
    line: Span,
) -> bool {
    let hyphen_width = hyphen_font.width_of(ASCII_HYPHEN);
    &&& 1 <= line.length <= i
    &&& line.insert_hyphen_before_line_break
    &&& line.skip_next_chars == 0
    &&& line.advance.x == prefix_width(text_font, text, line.length as int)
    &&& line.advance.y == text_font.height()
    &&& prefix_width(text_font, text, line.length as int) + hyphen_width <= max_width
    &&& forall|k: int|
        line.length < k <= i ==> #[trigger] prefix_width(text_font, text, k) + hyphen_width
            > max_width
}

proof fn lemma_scan_hyphenates(
    text: Seq<u8>,
    i: int,
    max_width: int,
    text_font: Font,
    hyphen_font: Font,
    line: Span,
    span_width: int,
    found_ws: bool,
)
    requires
        1 <= i <= text.len() <= usize::MAX,
        forall|j: int| 0 <= j < text.len() ==> !is_line_separator(#[trigger] text[j]),
        text_width(text_font, text) <= i32::MAX,
        text_width(text_font, text) > max_width,
        span_width == prefix_width(text_font, text, i),
        span_width <= max_width,
        best_hyphen_break(text, i, max_width, text_font, hyphen_font, line),
    ensures
        best_hyphen_break(
            text,
            text.len() as int,
            max_width,
            text_font,
            hyphen_font,
            fit_scan(
                text,
                i,
                max_width,
                text_font,
                hyphen_font,
                LineBreaking::BreakWordsAndInsertHyphen,
                line,
                span_width,
                found_ws,
            ),
        ),
    decreases text.len() - i,
{
    let hyphen_width = hyphen_font.width_of(ASCII_HYPHEN);
    hyphen_font.lemma_width_bounds(ASCII_HYPHEN);
    text_font.lemma_height_bounds();
    if i < text.len() {
        let ch = text[i];
        let char_width = text_font.width_of(ch);
        lemma_prefix_width_monotone(text_font, text, i + 1, text.len() as int);
        if span_width + char_width > max_width {
            assert forall|k: int| line.length < k <= text.len() implies #[trigger] prefix_width(
                text_font,
                text,
                k,
            ) + hyphen_width > max_width by {
                if k > i {
                    lemma_prefix_width_monotone(text_font, text, i + 1, k);
                }
            }
        } else {
            let hyphenate = span_width + char_width + hyphen_width <= max_width;
            let next_line = if hyphenate {
                Span {
                    length: (i + 1) as usize,
                    skip_next_chars: 0,
                    advance: Offset {
                        x: (span_width + char_width) as i32,
                        y: text_font.height() as i32,
                    },
                    insert_hyphen_before_line_break: true,
                }
            } else {
                line
            };
            assert(best_hyphen_break(text, i + 1, max_width, text_font, hyphen_font, next_line));
            lemma_scan_hyphenates(
                text,
                i + 1,
                max_width,
                text_font,
                hyphen_font,
                next_line,
                span_width + char_width,
                found_ws,
            );
        }
    }
}

/// Under `BreakWordsAndInsertHyphen`, a single word wider than the budget is
/// broken inside, with a hyphen, after its longest prefix that still fits
/// together with the hyphen (where its first character and a hyphen fit).
pub proof fn lemma_fit_hyphenates_word(
    text: Seq<u8>,
    max_width: int,
    text_font: Font,
    hyphen_font: Font,
)
    requires
        0 < text.len() <= usize::MAX,
        forall|j: int| 0 <= j < text.len() ==> !is_line_separator(#[trigger] text[j]),
        text_width(text_font, text) <= i32::MAX,
        text_width(text_font, text) > max_width,
        prefix_width(text_font, text, 1) + hyphen_font.width_of(ASCII_HYPHEN) <= max_width,
    ensures
        best_hyphen_break(
            text,
            text.len() as int,
            max_width,
            text_font,
            hyphen_font,
            fit_spec(
                text,
                max_width,
                text_font,
                hyphen_font,
                LineBreaking::BreakWordsAndInsertHyphen,
            ),
        ),
{
    hyphen_font.lemma_width_bounds(ASCII_HYPHEN);
    text_font.lemma_height_bounds();
    lemma_prefix_width_monotone(text_font, text, 1, text.len() as int);
    assert(prefix_width(text_font, text, 0) == 0);
    let first = Span {
        length: 1,
        skip_next_chars: 0,
        advance: Offset { x: prefix_width(text_font, text, 1) as i32, y: text_font.height() as i32 },
        insert_hyphen_before_line_break: true,
    };
    assert(best_hyphen_break(text, 1, max_width, text_font, hyphen_font, first));
    lemma_scan_hyphenates(
        text,
        1,
        max_width,
        text_font,
        hyphen_font,
        first,
        prefix_width(text_font, text, 1),
        false,
    );
}

impl Span {
    /// Finds the longest prefix of `text` that fits in `max_width` pixels: a
    /// single forward scan that breaks before a whitespace where it can, at a
    /// line feed or carriage return at once, and inside a word (with a hyphen)
    /// where the policy allows.
    pub fn fit_horizontally(
        text: &[u8],
        max_width: i64,
        text_font: Font,
        hyphen_font: Font,
        breaking: LineBreaking,
    ) -> (r: Span)
        requires
            text_width(text_font, text@) <= i32::MAX,
        ensures
            r == fit_spec(text@, max_width as int, text_font, hyphen_font, breaking),
            text@.len() > 0 ==> span_shape(text_font, text@, r),
    {
        let hyphen_width = hyphen_font.char_width(ASCII_HYPHEN) as i64;
        let line_height = text_font.line_height();
        proof {
            lemma_prefix_width_monotone(text_font, text@, 0, text@.len() as int);
            if text.len() > 0 {
                lemma_fit_shape(text@, max_width as int, text_font, hyphen_font, breaking);
            }
        }

        // The span we return in case the line has to break. We mutate it in the
        // possible break points, and its initial value is returned in case no text
        // at all is fitting the constraints: zero length, zero width, full line
        // break.
        let mut line = Span {
            length: 0,
            advance: Offset::new(0, line_height),
            insert_hyphen_before_line_break: false,
            skip_next_chars: 0,
        };

        let mut span_width: i64 = 0;
        let mut found_any_whitespace = false;

        let mut i: usize = 0;
        while i < text.len()
            invariant
                i <= text.len(),
                text_width(text_font, text@) <= i32::MAX,
                hyphen_width == hyphen_font.width_of(ASCII_HYPHEN),
                0 <= hyphen_width <= 255,
                line_height == text_font.height(),
                line_height > 0,
                text@.len() > 0 ==> span_shape(
                    text_font,
                    text@,
                    fit_spec(text@, max_width as int, text_font, hyphen_font, breaking),
                ),
                span_width == prefix_width(text_font, text@, i as int),
                span_width <= i32::MAX,
                fit_scan(
                    text@,
                    i as int,
                    max_width as int,
                    text_font,
                    hyphen_font,
                    breaking,
                    line,
                    span_width as int,
                    found_any_whitespace,
                ) == fit_spec(text@, max_width as int, text_font, hyphen_font, breaking),
            decreases text.len() - i,
        {
            proof {
                lemma_prefix_width_monotone(text_font, text@, i + 1, text@.len() as int);
            }
            let ch = text[i];
            let char_width = text_font.char_width(ch) as i64;

            // Consider if we could be breaking the line at this position.
            if ch == ASCII_SPACE || ch == ASCII_LF || ch == ASCII_CR {
                // Break before the whitespace, without hyphen.
                line.length = i;
                line.advance.x = span_width as i32;
                line.insert_hyphen_before_line_break = false;
                line.skip_next_chars = 1;
                if ch == ASCII_CR {
                    // We'll be breaking the line, but advancing the cursor only by a half of the
                    // regular line height.
                    line.advance.y = line_height / 2;
                } else {
                    line.advance.y = line_height;
                }
                if ch == ASCII_LF || ch == ASCII_CR {
                    // End of line, break immediately.
                    return line;
                }
                found_any_whitespace = true;
            } else if span_width + char_width > max_width as i64 {
                // Return the last breakpoint.
                return line;
            } else {
                let have_space_for_break = span_width + char_width + hyphen_width
                    <= max_width as i64;
                let can_break_word = match breaking {
                    LineBreaking::BreakWordsAndInsertHyphen => true,
                    LineBreaking::BreakAtWhitespace => !found_any_whitespace,
                };
                if have_space_for_break && can_break_word {
                    // Break after this character, append hyphen.
                    line.length = i + 1;
                    line.advance.x = (span_width + char_width) as i32;
                    line.advance.y = line_height;
                    line.insert_hyphen_before_line_break = true;
                    line.skip_next_chars = 0;
                }
            }

            span_width = span_width + char_width;
            i = i + 1;
        }

        // The whole text is fitting.
        Span {
            length: text.len(),
            advance: Offset::new(span_width as i32, 0),
            insert_hyphen_before_line_break: false,
            skip_next_chars: 0,
        }
    }
}

} // verus!
