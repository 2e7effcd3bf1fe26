use vstd::prelude::*;
use vstd::slice::slice_subrange;

use crate::font::{Font, MAX_CHAR_WIDTH};
use crate::geometry::{Color, Point, Rect};
use crate::span::{
    fit_spec, lemma_fit_shape, lemma_prefix_width_bound, lemma_prefix_width_monotone, text_width,
    LineBreaking, Span,
};
use crate::render::TextRenderer;
use crate::tokenizer::{tokenize, translated, Op, Tokenizer};
use vstd::string::StringSliceAdditionalSpecFns;

verus! {

/// What to do when the text reaches the bottom edge of its bounds.
#[derive(Copy, Clone, Debug, PartialEq, Eq, Structural)]
pub enum PageBreaking {
    /// Stop after hitting the bottom-right edge of the bounds.
    Cut,
    /// Before stopping at the bottom-right edge, insert ellipsis to signify
    /// more content is available, but only if no hyphen has been inserted yet.
    CutAndInsertEllipsis,
}

/// Visual instructions for laying out a formatted block of text.
#[derive(Copy, Clone, Debug)]
pub struct TextStyle {
    /// Bounding box restricting the layout dimensions.
    pub bounds: Rect,
    /// Background color.
    pub background_color: Color,
    /// Text color. Can be overridden by `Op::Color`.
    pub text_color: Color,
    /// Text font. Can be overridden by `Op::Font`.
    pub text_font: Font,
    /// Specifies which line-breaking strategy to use.
    pub line_breaking: LineBreaking,
    /// Font used for drawing the word-breaking hyphen.
    pub hyphen_font: Font,
    /// Foreground color used for drawing the hyphen.
    pub hyphen_color: Color,
    /// Specifies what to do at the end of the page.
    pub page_breaking: PageBreaking,
    /// Font used for drawing the ellipsis.
    pub ellipsis_font: Font,
    /// Foreground color used for drawing the ellipsis.
    pub ellipsis_color: Color,
}

/// How a layout ended.
#[derive(Copy, Clone, Debug, PartialEq, Eq, Structural)]
pub enum LayoutResult {
    /// Everything was laid out inside the bounds.
    Fitting,
    /// The bottom edge of the bounds was reached before the end.
    OutOfBounds,
}

/// One call that the layout makes on its sink.
pub enum SinkCall {
    Text { cursor: Point, style: TextStyle, text: Seq<u8> },
    Hyphen { cursor: Point, style: TextStyle },
    Ellipsis { cursor: Point, style: TextStyle },
    OutOfBounds,
}

/// Visitor for text segment operations. It is told where each piece goes and
/// decides nothing about line breaks.
pub trait LayoutSink {
    /// The calls this sink has received, oldest first.
    spec fn calls(&self) -> Seq<SinkCall>;

    /// A run of text at `cursor`.
    fn text(&mut self, cursor: &Point, style: &TextStyle, text: &[u8])
        ensures
            final(self).calls() == old(self).calls().push(
                SinkCall::Text { cursor: *cursor, style: *style, text: text@ },
            ),
    ;

    /// A word-breaking hyphen at `cursor`.
    fn hyphen(&mut self, cursor: &Point, style: &TextStyle)
        ensures
            final(self).calls() == old(self).calls().push(
                SinkCall::Hyphen { cursor: *cursor, style: *style },
            ),
    ;

    /// An ellipsis at `cursor`, telling that more text did not fit.
    fn ellipsis(&mut self, cursor: &Point, style: &TextStyle)
        ensures
            final(self).calls() == old(self).calls().push(
                SinkCall::Ellipsis { cursor: *cursor, style: *style },
            ),
    ;

    /// The layout has reached the bottom edge of its bounds.
    fn out_of_bounds(&mut self)
        ensures
            final(self).calls() == old(self).calls().push(SinkCall::OutOfBounds),
    ;
}

/// The outcome of laying out a run of text or a sequence of operations: the
/// calls made on the sink, where the cursor ends, how it ended, and how many
/// bytes of the last text were left unconsumed.
pub struct Outcome {
    pub calls: Seq<SinkCall>,
    pub cursor: Point,
    pub result: LayoutResult,
    pub unconsumed: int,
}

/// The widest a run of `n` bytes can be.
pub open spec fn max_run_width(n: int) -> int {
    MAX_CHAR_WIDTH * n
}

/// Whether laying out `n` more bytes from horizontal position `x`, with lines
/// starting at `x0`, keeps every coordinate inside `i32`.
pub open spec fn fits_coordinates(x: int, x0: int, n: int) -> bool {
    &&& x + max_run_width(n) <= i32::MAX
    &&& x0 + max_run_width(n) <= i32::MAX
    &&& max_run_width(n) <= i32::MAX
}

/// The position after `span`, before any line break.
pub open spec fn after_span(cursor: Point, span: Span) -> Point {
    Point { x: (cursor.x + span.advance.x) as i32, y: cursor.y }
}

/// Lays out `text` from `cursor` on: one span at a time, moving down a line
/// after each span that breaks the line, and stopping as soon as a line break
/// would leave the bounds.
pub open spec fn text_layout(style: TextStyle, text: Seq<u8>, cursor: Point) -> Outcome
    decreases text.len(), style.bounds.y1 - cursor.y,
{
    if text.len() == 0 {
        Outcome { calls: Seq::empty(), cursor, result: LayoutResult::Fitting, unconsumed: 0 }
    } else {
        let span = fit_spec(
            text,
            style.bounds.x1 - cursor.x,
            style.text_font,
            style.hyphen_font,
            style.line_breaking,
        );
        let consumed = span.length + span.skip_next_chars;
        let rest = text.subrange(consumed, text.len() as int);
        let shown = SinkCall::Text { cursor, style, text: text.subrange(0, span.length as int) };
        let moved = after_span(cursor, span);
        if consumed > text.len() {
            // Unreachable: a span never reaches past its text.
            Outcome { calls: Seq::empty(), cursor, result: LayoutResult::Fitting, unconsumed: 0 }
        } else if span.advance.y > 0 {
            let calls = if span.insert_hyphen_before_line_break {
                seq![shown, SinkCall::Hyphen { cursor: moved, style }]
            } else {
                seq![shown]
            };
            if cursor.y + span.advance.y > style.bounds.y1 {
                let calls = if rest.len() > 0 && style.page_breaking is CutAndInsertEllipsis
                    && !span.insert_hyphen_before_line_break {
                    calls.push(SinkCall::Ellipsis { cursor: moved, style })
                } else {
                    calls
                };
                Outcome {
                    calls: calls.push(SinkCall::OutOfBounds),
                    cursor: moved,
                    result: LayoutResult::OutOfBounds,
                    unconsumed: rest.len() as int,
                }
            } else {
                let next_line = Point {
                    x: style.bounds.x0,
                    y: (cursor.y + span.advance.y) as i32,
                };
                let tail = text_layout(style, rest, next_line);
                Outcome { calls: calls + tail.calls, ..tail }
            }
        } else if consumed > 0 {
            let tail = text_layout(style, rest, moved);
            Outcome { calls: seq![shown] + tail.calls, ..tail }
        } else {
            // Unreachable: a span that consumes nothing breaks the line.
            Outcome { calls: Seq::empty(), cursor, result: LayoutResult::Fitting, unconsumed: 0 }
        }
    }
}

/// The total length of the text operations in `ops`.
pub open spec fn ops_text_len<'a>(ops: Seq<Op<'a>>) -> int
    decreases ops.len(),
{
    if ops.len() == 0 {
        0
    } else {
        let rest = ops_text_len(ops.subrange(1, ops.len() as int));
        match ops[0] {
            Op::Text(t) => t@.len() + rest,
            _ => rest,
        }
    }
}

proof fn lemma_ops_text_len_nonneg<'a>(ops: Seq<Op<'a>>)
    ensures
        ops_text_len(ops) >= 0,
    decreases ops.len(),
{
    if ops.len() > 0 {
        lemma_ops_text_len_nonneg(ops.subrange(1, ops.len() as int));
    }
}

/// Folds `ops` over `style` and `cursor`: a color or font change updates the
/// style, a text is laid out with `text_layout`, and the first text that
/// leaves the bounds ends the layout.
pub open spec fn ops_layout<'a>(style: TextStyle, ops: Seq<Op<'a>>, cursor: Point) -> Outcome
    decreases ops.len(),
{
    if ops.len() == 0 {
        Outcome { calls: Seq::empty(), cursor, result: LayoutResult::Fitting, unconsumed: 0 }
    } else {
        let rest = ops.subrange(1, ops.len() as int);
        match ops[0] {
            Op::Color(color) => ops_layout(TextStyle { text_color: color, ..style }, rest, cursor),
            Op::Font(font) => ops_layout(TextStyle { text_font: font, ..style }, rest, cursor),
            Op::Text(text) => {
                let first = text_layout(style, text@, cursor);
                if first.result is OutOfBounds {
                    first
                } else {
                    let tail = ops_layout(style, rest, first.cursor);
                    Outcome { calls: first.calls + tail.calls, ..tail }
                }
            },
        }
    }
}

/// The total length of the text operations in `ops`, where it is at most
/// `limit`.
fn text_len_within<'a>(ops: &[Op<'a>], limit: u64) -> (r: Option<u64>)
    ensures
        match r {
            Some(n) => n == ops_text_len(ops@) && n <= limit,
            None => ops_text_len(ops@) > limit,
        },
{
    let mut total: u64 = 0;
    let mut i: usize = 0;
    assert(ops@.subrange(0, ops@.len() as int) =~= ops@);
    while i < ops.len()
        invariant
            i <= ops@.len(),
            total <= limit,
            total + ops_text_len(ops@.subrange(i as int, ops@.len() as int)) == ops_text_len(ops@),
        decreases ops@.len() - i,
    {
        let ghost here = ops@.subrange(i as int, ops@.len() as int);
        let ghost next = ops@.subrange(i + 1, ops@.len() as int);
        assert(here.subrange(1, here.len() as int) =~= next);
        assert(here[0] == ops@[i as int]);
        proof {
            lemma_ops_text_len_nonneg(next);
        }
        match ops[i] {
            Op::Text(text) => {
                if text.len() as u64 > limit - total {
                    return None;
                }
                total = total + text.len() as u64;
            },
            _ => {},
        }
        i = i + 1;
    }
    assert(ops@.subrange(i as int, ops@.len() as int) =~= Seq::<Op<'a>>::empty());
    Some(total)
}

/// A call that lays out a glyph in the text flow: text or a hyphen.
pub open spec fn is_flow_call(call: SinkCall) -> bool {
    call is Text || call is Hyphen
}

/// The shape of the calls that laying out one text makes: text and hyphens,
/// and where the bounds were left, at most one ellipsis right before the
/// single overflow notice at the end.
pub open spec fn ends_well(style: TextStyle, o: Outcome) -> bool {
    match o.result {
        LayoutResult::Fitting => forall|k: int| 0 <= k < o.calls.len() ==> is_flow_call(#[trigger] o.calls[k]),
        LayoutResult::OutOfBounds => {
            let n = o.calls.len();
            &&& n >= 2
            &&& o.calls[n - 1] is OutOfBounds
            &&& forall|k: int| 0 <= k < n - 2 ==> is_flow_call(#[trigger] o.calls[k])
            &&& is_flow_call(o.calls[n - 2]) || o.calls[n - 2] is Ellipsis
            &&& o.calls[n - 2] is Ellipsis ==> style.page_breaking is CutAndInsertEllipsis
            &&& (o.unconsumed > 0 && style.page_breaking is CutAndInsertEllipsis && !(o.calls[n
                - 2] is Hyphen)) ==> o.calls[n - 2] is Ellipsis
        },
    }
}

proof fn lemma_text_layout_ends_well(style: TextStyle, text: Seq<u8>, cursor: Point)
    ensures
        ends_well(style, text_layout(style, text, cursor)),
    decreases text.len(), style.bounds.y1 - cursor.y,
{
    if text.len() > 0 {
        let span = fit_spec(
            text,
            style.bounds.x1 - cursor.x,
            style.text_font,
            style.hyphen_font,
            style.line_breaking,
        );
        let consumed = span.length + span.skip_next_chars;
        let rest = text.subrange(consumed, text.len() as int);
        let shown = SinkCall::Text { cursor, style, text: text.subrange(0, span.length as int) };
        let moved = after_span(cursor, span);
        if consumed <= text.len() {
            if span.advance.y > 0 {
                let calls = if span.insert_hyphen_before_line_break {
                    seq![shown, SinkCall::Hyphen { cursor: moved, style }]
                } else {
                    seq![shown]
                };
                if cursor.y + span.advance.y <= style.bounds.y1 {
                    let next_line = Point {
                        x: style.bounds.x0,
                        y: (cursor.y + span.advance.y) as i32,
                    };
                    lemma_text_layout_ends_well(style, rest, next_line);
                    let tail = text_layout(style, rest, next_line);
                    assert forall|k: int| 0 <= k < calls.len() implies is_flow_call(
                        #[trigger] calls[k],
                    ) by {}
                    let all = calls + tail.calls;
                    if tail.result is OutOfBounds {
                        assert(all[all.len() - 1] == tail.calls[tail.calls.len() - 1]);
                        assert(all[all.len() - 2] == tail.calls[tail.calls.len() - 2]);
                        assert forall|k: int| 0 <= k < all.len() - 2 implies is_flow_call(
                            #[trigger] all[k],
                        ) by {
                            if k >= calls.len() {
                                assert(all[k] == tail.calls[k - calls.len()]);
                            }
                        }
                    } else {
                        assert forall|k: int| 0 <= k < all.len() implies is_flow_call(
                            #[trigger] all[k],
                        ) by {
                            if k >= calls.len() {
                                assert(all[k] == tail.calls[k - calls.len()]);
                            }
                        }
                    }
                }
            } else if consumed > 0 {
                lemma_text_layout_ends_well(style, rest, moved);
                let tail = text_layout(style, rest, moved);
                let all = seq![shown] + tail.calls;
                if tail.result is OutOfBounds {
                    assert(all[all.len() - 1] == tail.calls[tail.calls.len() - 1]);
                    assert(all[all.len() - 2] == tail.calls[tail.calls.len() - 2]);
                    assert forall|k: int| 0 <= k < all.len() - 2 implies is_flow_call(
                        #[trigger] all[k],
                    ) by {
                        if k >= 1 {
                            assert(all[k] == tail.calls[k - 1]);
                        }
                    }
                } else {
                    assert forall|k: int| 0 <= k < all.len() implies is_flow_call(
                        #[trigger] all[k],
                    ) by {
                        if k >= 1 {
                            assert(all[k] == tail.calls[k - 1]);
                        }
                    }
                }
            }
        }
    }
}

/// With `CutAndInsertEllipsis`, a text that leaves the bounds with some of it
/// still unconsumed, on a line that did not end in a hyphen, makes exactly
/// one ellipsis call, immediately before the overflow call that ends the
/// calls.
pub proof fn lemma_ellipsis_before_overflow(style: TextStyle, text: Seq<u8>, cursor: Point)
    requires
        style.page_breaking is CutAndInsertEllipsis,
        text_layout(style, text, cursor).result is OutOfBounds,
        text_layout(style, text, cursor).unconsumed > 0,
        ({
            let calls = text_layout(style, text, cursor).calls;
            calls.len() >= 2 ==> !(calls[calls.len() - 2] is Hyphen)
        }),
    ensures
        ({
            let calls = text_layout(style, text, cursor).calls;
            let n = calls.len();
            &&& n >= 2
            &&& calls[n - 1] is OutOfBounds
            &&& calls[n - 2] is Ellipsis
            &&& forall|k: int| 0 <= k < n && k != n - 2 ==> !(#[trigger] calls[k] is Ellipsis)
        }),
{
    lemma_text_layout_ends_well(style, text, cursor);
}

/// Laying out the same operations with the same style from the same cursor
/// twice hands the sinks the same calls both times.
pub proof fn lemma_layout_deterministic<'a>(
    style: TextStyle,
    ops: Seq<Op<'a>>,
    cursor: Point,
    first_before: Seq<SinkCall>,
    first_after: Seq<SinkCall>,
    second_before: Seq<SinkCall>,
    second_after: Seq<SinkCall>,
)
    requires
        first_after == first_before + ops_layout(style, ops, cursor).calls,
        second_after == second_before + ops_layout(style, ops, cursor).calls,
    ensures
        first_after.subrange(first_before.len() as int, first_after.len() as int)
            == second_after.subrange(second_before.len() as int, second_after.len() as int),
{
    assert(first_after.subrange(first_before.len() as int, first_after.len() as int)
        =~= ops_layout(style, ops, cursor).calls);
    assert(second_after.subrange(second_before.len() as int, second_after.len() as int)
        =~= ops_layout(style, ops, cursor).calls);
}

impl TextStyle {
    /// Lays out one run of text from `cursor` on, reporting each piece to
    /// `sink`, and leaves `cursor` where the next text would go.
    pub fn layout_text<S: LayoutSink>(&self, text: &[u8], cursor: &mut Point, sink: &mut S) -> (r:
        LayoutResult)
        requires
            fits_coordinates(old(cursor).x as int, self.bounds.x0 as int, text@.len() as int),
        ensures
            ({
                let o = text_layout(*self, text@, *old(cursor));
                &&& r == o.result
                &&& *final(cursor) == o.cursor
                &&& final(sink).calls() == old(sink).calls() + o.calls
            }),
            final(cursor).x <= if old(cursor).x >= self.bounds.x0 {
                old(cursor).x + max_run_width(text@.len() as int)
            } else {
                self.bounds.x0 + max_run_width(text@.len() as int)
            },
    {
        let ghost start = *cursor;
        let ghost limit = if start.x >= self.bounds.x0 {
            start.x + max_run_width(text@.len() as int)
        } else {
            self.bounds.x0 + max_run_width(text@.len() as int)
        };
        let ghost total = text_layout(*self, text@, start);
        let ghost emitted: Seq<SinkCall> = Seq::empty();
        let line_height = self.text_font.line_height();
        let mut remaining_text = text;

        while remaining_text.len() > 0
            invariant
                start == *old(cursor),
                total == text_layout(*self, text@, start),
                limit == if start.x >= self.bounds.x0 {
                    start.x + max_run_width(text@.len() as int)
                } else {
                    self.bounds.x0 + max_run_width(text@.len() as int)
                },
                line_height == self.text_font.height(),
                line_height > 0,
                cursor.x + max_run_width(remaining_text@.len() as int) <= limit,
                self.bounds.x0 + max_run_width(remaining_text@.len() as int) <= limit,
                limit <= i32::MAX,
                max_run_width(remaining_text@.len() as int) <= i32::MAX,
                sink.calls() == old(sink).calls() + emitted,
                ({
                    let tail = text_layout(*self, remaining_text@, *cursor);
                    &&& total.calls == emitted + tail.calls
                    &&& total.cursor == tail.cursor
                    &&& total.result == tail.result
                }),
            decreases remaining_text@.len(), self.bounds.y1 - cursor.y,
        {
            proof {
                lemma_prefix_width_bound(self.text_font, remaining_text@, remaining_text@.len() as int);
            }
            let span = Span::fit_horizontally(
                remaining_text,
                self.bounds.x1 as i64 - cursor.x as i64,
                self.text_font,
                self.hyphen_font,
                self.line_breaking,
            );
            proof {
                lemma_fit_shape(
                    remaining_text@,
                    self.bounds.x1 - cursor.x,
                    self.text_font,
                    self.hyphen_font,
                    self.line_breaking,
                );
                lemma_prefix_width_bound(self.text_font, remaining_text@, span.length as int);
                lemma_prefix_width_monotone(self.text_font, remaining_text@, 0, span.length as int);
            }
            let ghost before = remaining_text@;
            let ghost at = *cursor;
            let ghost tail = text_layout(*self, before, at);

            // Report the span at the cursor position.
            let shown = slice_subrange(remaining_text, 0, span.length);
            sink.text(cursor, self, shown);

            // Continue with the rest of the remaining_text.
            remaining_text = slice_subrange(
                remaining_text,
                span.length + span.skip_next_chars,
                remaining_text.len(),
            );

            // Advance the cursor horizontally.
            cursor.x = cursor.x + span.advance.x;

            let ghost calls = seq![SinkCall::Text { cursor: at, style: *self, text: shown@ }];
            if span.advance.y > 0 {
                // We're advancing to the next line.

                // Check if we should be appending a hyphen at this point.
                if span.insert_hyphen_before_line_break {
                    sink.hyphen(cursor, self);
                    proof {
                        calls = calls.push(SinkCall::Hyphen { cursor: *cursor, style: *self });
                    }
                }
                // Check the amount of vertical space we have left.
                if cursor.y as i64 + span.advance.y as i64 > self.bounds.y1 as i64 {
                    if remaining_text.len() > 0 {
                        // Append ellipsis to indicate more content is available, but only if we
                        // haven't already appended a hyphen.
                        let should_append_ellipsis = match self.page_breaking {
                            PageBreaking::CutAndInsertEllipsis => true,
                            PageBreaking::Cut => false,
                        } && !span.insert_hyphen_before_line_break;
                        if should_append_ellipsis {
                            sink.ellipsis(cursor, self);
                            proof {
                                calls = calls.push(SinkCall::Ellipsis { cursor: *cursor, style: *self });
                            }
                        }
                        // This does not signal more content when this text ends
                        // exactly at the line break and more text operations follow.
                    }

                    // Report we are out of bounds and quit.
                    sink.out_of_bounds();
                    proof {
                        calls = calls.push(SinkCall::OutOfBounds);
                        assert(calls =~= tail.calls);
                        assert(sink.calls() =~= old(sink).calls() + emitted + calls);
                        assert(sink.calls() =~= old(sink).calls() + total.calls);
                        assert(cursor.x <= limit);
                    }

                    return LayoutResult::OutOfBounds;
                } else {
                    // Advance the cursor to the beginning of the next line.
                    cursor.x = self.bounds.x0;
                    cursor.y = cursor.y + span.advance.y;
                }
            }
            proof {
                assert(tail.calls =~= calls + text_layout(*self, remaining_text@, *cursor).calls);
                assert(total.calls =~= (emitted + calls) + text_layout(
                    *self,
                    remaining_text@,
                    *cursor,
                ).calls);
                assert(sink.calls() =~= old(sink).calls() + (emitted + calls));
                emitted = emitted + calls;
            }
        }
        proof {
            assert(total.calls =~= emitted);
        }
        LayoutResult::Fitting
    }
    /// Lays out `ops` in order from `cursor` on: color and font changes apply
    /// to the text after them, and the layout stops at the first text that
    /// leaves the bounds.
    pub fn layout_ops<'a, S: LayoutSink>(self, ops: &[Op<'a>], cursor: &mut Point, sink: &mut S) -> (r:
        LayoutResult)
        requires
            fits_coordinates(old(cursor).x as int, self.bounds.x0 as int, ops_text_len(ops@)),
        ensures
            ({
                let o = ops_layout(self, ops@, *old(cursor));
                &&& r == o.result
                &&& *final(cursor) == o.cursor
                &&& final(sink).calls() == old(sink).calls() + o.calls
            }),
    {
        let mut style = self;
        let ghost total = ops_layout(self, ops@, *cursor);
        let ghost emitted: Seq<SinkCall> = Seq::empty();
        let mut i: usize = 0;
        assert(ops@.subrange(0, ops@.len() as int) =~= ops@);
        while i < ops.len()
            invariant
                i <= ops@.len(),
                total == ops_layout(self, ops@, *old(cursor)),
                style.bounds == self.bounds,
                fits_coordinates(
                    cursor.x as int,
                    self.bounds.x0 as int,
                    ops_text_len(ops@.subrange(i as int, ops@.len() as int)),
                ),
                sink.calls() == old(sink).calls() + emitted,
                ({
                    let tail = ops_layout(style, ops@.subrange(i as int, ops@.len() as int), *cursor);
                    &&& total.calls == emitted + tail.calls
                    &&& total.cursor == tail.cursor
                    &&& total.result == tail.result
                }),
            decreases ops@.len() - i,
        {
            let ghost here = ops@.subrange(i as int, ops@.len() as int);
            let ghost next = ops@.subrange(i + 1, ops@.len() as int);
            assert(here.subrange(1, here.len() as int) =~= next);
            assert(here[0] == ops@[i as int]);
            proof {
                lemma_ops_text_len_nonneg(next);
            }
            match ops[i] {
                Op::Color(color) => {
                    style.text_color = color;
                },
                Op::Font(font) => {
                    style.text_font = font;
                },
                Op::Text(text) => {
                    let ghost at = *cursor;
                    let ghost before = sink.calls();
                    let result = style.layout_text(text, cursor, sink);
                    let ghost first = text_layout(style, text@, at);
                    match result {
                        LayoutResult::OutOfBounds => {
                            assert(sink.calls() =~= old(sink).calls() + total.calls);
                            return LayoutResult::OutOfBounds;
                        },
                        LayoutResult::Fitting => {},
                    }
                    proof {
                        assert(sink.calls() =~= old(sink).calls() + (emitted + first.calls));
                        emitted = emitted + first.calls;
                    }
                },
            }
            i = i + 1;
        }
        assert(total.calls =~= emitted);
        LayoutResult::Fitting
    }
    /// Renders `format` from the top-left corner of the bounds: literals as
    /// text, each `{argument}` as what `arg_to_op` makes of it. Returns the
    /// renderer holding what was drawn, or `None`, drawing nothing, where the
    /// text is too long for the display's coordinates.
    pub fn render_format<'a, F: Fn(&'a [u8]) -> Option<Op<'a>>>(self, format: &'a str, arg_to_op: F) -> (r:
        Option<TextRenderer>)
        requires
            forall|a: &'a [u8]| #[trigger] call_requires(arg_to_op, (a,)),
        ensures
            exists|ops: Seq<Op<'a>>|
                #[trigger] translated(tokenize(format.spec_bytes()), ops, arg_to_op) && match r {
                    Some(renderer) => fits_coordinates(
                        self.bounds.x0 as int,
                        self.bounds.x0 as int,
                        ops_text_len(ops),
                    ) && renderer.calls() == ops_layout(
                        self,
                        ops,
                        (Point { x: self.bounds.x0, y: self.bounds.y0 }),
                    ).calls,
                    None => !fits_coordinates(
                        self.bounds.x0 as int,
                        self.bounds.x0 as int,
                        ops_text_len(ops),
                    ),
                },
    {
        let mut cursor = self.bounds.top_left();
        let ops = Tokenizer::new(format).into_ops(arg_to_op);
        let x0 = self.bounds.x0 as i64;
        let room: i64 = if x0 > 0 {
            0x7fff_ffff - x0
        } else {
            0x7fff_ffff
        };
        let limit = (room / 255) as u64;
        match text_len_within(ops.as_slice(), limit) {
            None => None,
            Some(_) => {
                let mut renderer = TextRenderer::new();
                self.layout_ops(ops.as_slice(), &mut cursor, &mut renderer);
                let ghost start = Point { x: self.bounds.x0, y: self.bounds.y0 };
                assert(renderer.calls() =~= ops_layout(self, ops@, start).calls);
                Some(renderer)
            },
        }
    }
}

} // verus!
