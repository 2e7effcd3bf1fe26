use vstd::prelude::*;
use vstd::slice::slice_to_vec;

use crate::font::Font;
use crate::geometry::{Color, Point};
use crate::layout::{LayoutSink, SinkCall, TextStyle};

verus! {

/// A sink that draws nothing: laying out into it only measures.
pub struct TextNoop {
    calls: Ghost<Seq<SinkCall>>,
}

impl TextNoop {
    pub fn new() -> (r: TextNoop)
        ensures
            r.calls() == Seq::<SinkCall>::empty(),
    {
        TextNoop { calls: Ghost(Seq::empty()) }
    }
}

impl LayoutSink for TextNoop {
    closed spec fn calls(&self) -> Seq<SinkCall> {
        self.calls@
    }

    fn text(&mut self, cursor: &Point, style: &TextStyle, text: &[u8]) {
        self.calls = Ghost(
            self.calls@.push(SinkCall::Text { cursor: *cursor, style: *style, text: text@ }),
        );
    }

    fn hyphen(&mut self, cursor: &Point, style: &TextStyle) {
        self.calls = Ghost(self.calls@.push(SinkCall::Hyphen { cursor: *cursor, style: *style }));
    }

    fn ellipsis(&mut self, cursor: &Point, style: &TextStyle) {
        self.calls = Ghost(
            self.calls@.push(SinkCall::Ellipsis { cursor: *cursor, style: *style }),
        );
    }

    fn out_of_bounds(&mut self) {
        self.calls = Ghost(self.calls@.push(SinkCall::OutOfBounds));
    }
}

/// One call of the display's text primitive: draw `text` with its top-left
/// corner at `at`.
#[derive(Debug)]
pub struct DrawText {
    pub at: Point,
    pub text: Vec<u8>,
    pub font: Font,
    pub foreground: Color,
    pub background: Color,
}

/// What a `DrawText` holds, as a value.
pub struct DrawView {
    pub at: Point,
    pub text: Seq<u8>,
    pub font: Font,
    pub foreground: Color,
    pub background: Color,
}

impl View for DrawText {
    type V = DrawView;

    open spec fn view(&self) -> DrawView {
        DrawView {
            at: self.at,
            text: self.text@,
            font: self.font,
            foreground: self.foreground,
            background: self.background,
        }
    }
}

/// The glyphs drawn for a word-breaking hyphen.
pub open spec fn hyphen_glyph() -> Seq<u8> {
    seq![45u8]
}

/// The glyphs drawn for an ellipsis.
pub open spec fn ellipsis_glyph() -> Seq<u8> {
    seq![46u8, 46u8, 46u8]
}

/// What the drawing sink draws for one call: text in the style's text font
/// and color, a hyphen and an ellipsis in their own fonts and colors, all on
/// the background color; nothing for the end of the bounds.
pub open spec fn draw_of(call: SinkCall) -> Seq<DrawView> {
    match call {
        SinkCall::Text { cursor, style, text } => seq![
            DrawView {
                at: cursor,
                text,
                font: style.text_font,
                foreground: style.text_color,
                background: style.background_color,
            },
        ],
        SinkCall::Hyphen { cursor, style } => seq![
            DrawView {
                at: cursor,
                text: hyphen_glyph(),
                font: style.hyphen_font,
                foreground: style.hyphen_color,
                background: style.background_color,
            },
        ],
        SinkCall::Ellipsis { cursor, style } => seq![
            DrawView {
                at: cursor,
                text: ellipsis_glyph(),
                font: style.ellipsis_font,
                foreground: style.ellipsis_color,
                background: style.background_color,
            },
        ],
        SinkCall::OutOfBounds => Seq::empty(),
    }
}

/// Everything drawn for `calls`, in order.
pub open spec fn drawn(calls: Seq<SinkCall>) -> Seq<DrawView>
    decreases calls.len(),
{
    if calls.len() == 0 {
        Seq::empty()
    } else {
        drawn(calls.drop_last()) + draw_of(calls.last())
    }
}

/// A sink that draws: it keeps, in order, the calls of the display's text
/// primitive that the layout asks for.
pub struct TextRenderer {
    commands: Vec<DrawText>,
    calls: Ghost<Seq<SinkCall>>,
}

impl TextRenderer {
    #[verifier::type_invariant]
    spec fn inv(self) -> bool {
        self.commands@.map_values(|d: DrawText| d@) == drawn(self.calls@)
    }

    pub fn new() -> (r: TextRenderer)
        ensures
            r.calls() == Seq::<SinkCall>::empty(),
    {
        let commands: Vec<DrawText> = Vec::new();
        let ghost calls: Seq<SinkCall> = Seq::empty();
        assert(commands@.map_values(|d: DrawText| d@) =~= drawn(calls));
        TextRenderer { commands, calls: Ghost(calls) }
    }

    /// The draw calls made so far, oldest first.
    pub fn commands(&self) -> (r: &[DrawText])
        ensures
            r@.map_values(|d: DrawText| d@) == drawn(self.calls()),
    {
        proof {
            use_type_invariant(self);
        }
        self.commands.as_slice()
    }

    fn draw(&mut self, command: DrawText, call: Ghost<SinkCall>)
        requires
            draw_of(call@) == seq![command@],
        ensures
            final(self).calls() == old(self).calls().push(call@),
    {
        let mut previous = TextRenderer::new();
        std::mem::swap(self, &mut previous);
        proof {
            use_type_invariant(&previous);
        }
        let TextRenderer { mut commands, calls: logged } = previous;
        let ghost before = commands@;
        commands.push(command);
        let ghost calls = logged@.push(call@);
        assert(calls.drop_last() =~= logged@);
        assert(commands@.map_values(|d: DrawText| d@) =~= before.map_values(|d: DrawText| d@)
            + draw_of(call@));
        *self = TextRenderer { commands, calls: Ghost(calls) };
    }
}

impl LayoutSink for TextRenderer {
    closed spec fn calls(&self) -> Seq<SinkCall> {
        self.calls@
    }

    fn text(&mut self, cursor: &Point, style: &TextStyle, text: &[u8]) {
        let command = DrawText {
            at: *cursor,
            text: slice_to_vec(text),
            font: style.text_font,
            foreground: style.text_color,
            background: style.background_color,
        };
        self.draw(command, Ghost(SinkCall::Text { cursor: *cursor, style: *style, text: text@ }));
    }

    fn hyphen(&mut self, cursor: &Point, style: &TextStyle) {
        let command = DrawText {
            at: *cursor,
            text: vec![45u8],
            font: style.hyphen_font,
            foreground: style.hyphen_color,
            background: style.background_color,
        };
        assert(command.text@ =~= hyphen_glyph());
        self.draw(command, Ghost(SinkCall::Hyphen { cursor: *cursor, style: *style }));
    }

    fn ellipsis(&mut self, cursor: &Point, style: &TextStyle) {
        let command = DrawText {
            at: *cursor,
            text: vec![46u8, 46u8, 46u8],
            font: style.ellipsis_font,
            foreground: style.ellipsis_color,
            background: style.background_color,
        };
        assert(command.text@ =~= ellipsis_glyph());
        self.draw(command, Ghost(SinkCall::Ellipsis { cursor: *cursor, style: *style }));
    }

    fn out_of_bounds(&mut self) {
        proof {
            use_type_invariant(&*self);
        }
        let ghost calls = self.calls@.push(SinkCall::OutOfBounds);
        assert(calls.drop_last() =~= self.calls@);
        assert(drawn(calls) =~= drawn(self.calls@));
        self.calls = Ghost(calls);
    }
}

} // verus!
