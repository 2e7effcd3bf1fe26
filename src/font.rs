use vstd::prelude::*;

verus! {

/// Metrics of a bitmap font: the advance width of each byte value and the
/// height of one line.
///
/// Widths are measured per byte, not per Unicode scalar value, so a multi-byte
/// character is measured as the sum of its bytes.
#[derive(Copy, Clone, Debug)]
pub struct Font {
    widths: [u8; 256],
    line_height: u8,
}

/// The widest advance a single byte can have.
pub const MAX_CHAR_WIDTH: u8 = 255;

impl Font {
    /// A line is never zero pixels tall, so that every line break moves the
    /// cursor down.
    #[verifier::type_invariant]
    spec fn inv(self) -> bool {
        self.line_height > 0
    }

    /// The advance width of byte `ch`.
    pub closed spec fn width_of(self, ch: u8) -> int {
        self.widths@[ch as int] as int
    }

    /// Every advance width lies between zero and `MAX_CHAR_WIDTH`.
    pub proof fn lemma_width_bounds(self, ch: u8)
        ensures
            0 <= #[trigger] self.width_of(ch) <= MAX_CHAR_WIDTH,
    {
    }

    /// The height of one line.
    pub closed spec fn height(self) -> int {
        self.line_height as int
    }

    /// A line height fits in a byte.
    pub proof fn lemma_height_bounds(self)
        ensures
            0 <= self.height() <= 255,
    {
    }

    pub fn new(widths: [u8; 256], line_height: u8) -> (r: Font)
        requires
            line_height > 0,
        ensures
            forall|ch: u8| #[trigger] r.width_of(ch) == widths@[ch as int] as int,
            r.height() == line_height as int,
    {
        Font { widths, line_height }
    }

    /// A font in which every byte is `width` pixels wide.
    pub fn monospace(width: u8, line_height: u8) -> (r: Font)
        requires
            line_height > 0,
        ensures
            forall|ch: u8| #[trigger] r.width_of(ch) == width as int,
            r.height() == line_height as int,
    {
        let widths: [u8; 256] = [width; 256];
        Font { widths, line_height }
    }

    /// The advance width of byte `ch`.
    pub fn char_width(&self, ch: u8) -> (r: i32)
        ensures
            r == self.width_of(ch),
            0 <= r <= MAX_CHAR_WIDTH,
    {
        self.widths[ch as usize] as i32
    }

    /// The height of one line.
    pub fn line_height(&self) -> (r: i32)
        ensures
            r == self.height(),
            r > 0,
    {
        proof {
            use_type_invariant(self);
        }
        self.line_height as i32
    }
}

} // verus!
